//! Parsing looks only forward: what is parsed from a position depends on
//! the text from that position on, and positions shift with it. Hence an
//! alias in a block's tag parses exactly as the canonical name does.

use vstd::prelude::*;
use crate::parse::{
    block_closes, flag_exceptions, unclosed, ExceptionKind, MAX_DEPTH, OpenTag, ParseException, SeqOutcome, StepOutcome, closer_at, exc,
    find_brackets, find_closer, find_quote, has_key, is_name_char, is_space, known_argument,
    open_tag, parse_args, parse_document, parse_seq, run_end, step, stops, text_end, word_end,
};
use crate::element::AttrsModel;
use crate::rule::{RuleId, RuleKind, lemma_names_unique, lookup};

verus! {

/// `s1` from `i1` on and `s2` from `i2` on hold the same text, and both fit
/// in memory.
pub open spec fn same_from(s1: Seq<char>, i1: int, s2: Seq<char>, i2: int) -> bool {
    &&& 0 <= i1 <= s1.len() <= usize::MAX
    &&& 0 <= i2 <= s2.len() <= usize::MAX
    &&& s1.subrange(i1, s1.len() as int) == s2.subrange(i2, s2.len() as int)
}

/// The kinds of exceptions, in order, without their spans.
pub open spec fn kinds(es: Seq<ParseException>) -> Seq<ExceptionKind> {
    es.map_values(|e: ParseException| e.kind)
}

proof fn lemma_kinds_push(es: Seq<ParseException>, x: ParseException)
    ensures
        kinds(es.push(x)) == kinds(es).push(x.kind),
{
    assert(kinds(es.push(x)) =~= kinds(es).push(x.kind));
}

proof fn lemma_kinds_concat(a: Seq<ParseException>, b: Seq<ParseException>)
    ensures
        kinds(a + b) == kinds(a) + kinds(b),
{
    assert(kinds(a + b) =~= kinds(a) + kinds(b));
}

proof fn lemma_same_len(s1: Seq<char>, i1: int, s2: Seq<char>, i2: int)
    requires
        same_from(s1, i1, s2, i2),
    ensures
        s1.len() - i1 == s2.len() - i2,
{
    assert(s1.subrange(i1, s1.len() as int).len() == s2.subrange(i2, s2.len() as int).len());
}

proof fn lemma_same_char(s1: Seq<char>, i1: int, s2: Seq<char>, i2: int, x: int)
    requires
        same_from(s1, i1, s2, i2),
        0 <= x < s1.len() - i1,
    ensures
        s1.len() - i1 == s2.len() - i2,
        s1[i1 + x] == s2[i2 + x],
{
    lemma_same_len(s1, i1, s2, i2);
    assert(s1.subrange(i1, s1.len() as int)[x] == s2.subrange(i2, s2.len() as int)[x]);
}

proof fn lemma_same_sub(s1: Seq<char>, i1: int, s2: Seq<char>, i2: int, a: int, b: int)
    requires
        same_from(s1, i1, s2, i2),
        0 <= a <= b <= s1.len() - i1,
    ensures
        s1.subrange(i1 + a, i1 + b) == s2.subrange(i2 + a, i2 + b),
{
    lemma_same_len(s1, i1, s2, i2);
    assert forall|k: int| 0 <= k < b - a implies #[trigger] s1.subrange(i1 + a, i1 + b)[k] == s2.subrange(
        i2 + a,
        i2 + b,
    )[k] by {
        lemma_same_char(s1, i1, s2, i2, a + k);
    }
    assert(s1.subrange(i1 + a, i1 + b) =~= s2.subrange(i2 + a, i2 + b));
}

proof fn lemma_same_run(s1: Seq<char>, i1: int, s2: Seq<char>, i2: int, x: int, e: int, key: bool)
    requires
        same_from(s1, i1, s2, i2),
        0 <= x,
        e <= s1.len() - i1,
    ensures
        run_end(s1, i1 + x, i1 + e, key) - i1 == run_end(s2, i2 + x, i2 + e, key) - i2,
    decreases e - x,
{
    lemma_same_len(s1, i1, s2, i2);
    if x < e {
        lemma_same_char(s1, i1, s2, i2, x);
        lemma_same_run(s1, i1, s2, i2, x + 1, e, key);
    }
}

proof fn lemma_same_word(s1: Seq<char>, i1: int, s2: Seq<char>, i2: int, x: int, e: int)
    requires
        same_from(s1, i1, s2, i2),
        0 <= x,
        e <= s1.len() - i1,
    ensures
        word_end(s1, i1 + x, i1 + e) - i1 == word_end(s2, i2 + x, i2 + e) - i2,
    decreases e - x,
{
    lemma_same_len(s1, i1, s2, i2);
    if x < e {
        lemma_same_char(s1, i1, s2, i2, x);
        lemma_same_word(s1, i1, s2, i2, x + 1, e);
    }
}

proof fn lemma_same_quote(s1: Seq<char>, i1: int, s2: Seq<char>, i2: int, x: int, e: int)
    requires
        same_from(s1, i1, s2, i2),
        0 <= x,
        e <= s1.len() - i1,
    ensures
        find_quote(s1, i1 + x, i1 + e) - i1 == find_quote(s2, i2 + x, i2 + e) - i2,
    decreases e - x,
{
    lemma_same_len(s1, i1, s2, i2);
    if x < e {
        lemma_same_char(s1, i1, s2, i2, x);
        lemma_same_quote(s1, i1, s2, i2, x + 1, e);
    }
}

proof fn lemma_run_bounds(s: Seq<char>, i: int, end: int, key: bool)
    requires
        0 <= i <= end <= s.len(),
    ensures
        i <= run_end(s, i, end, key) <= end,
    decreases end - i,
{
    if i < end {
        lemma_run_bounds(s, i + 1, end, key);
    }
}

proof fn lemma_brackets_bounds(s: Seq<char>, j: int)
    requires
        0 <= j,
    ensures
        find_brackets(s, j) matches Some(k) ==> j <= k && k + 1 < s.len(),
    decreases s.len() - j,
{
    if j + 1 < s.len() {
        lemma_brackets_bounds(s, j + 1);
    }
}

/// Two optional positions that agree up to the offsets.
pub open spec fn pos_match(o1: Option<int>, i1: int, o2: Option<int>, i2: int) -> bool {
    match (o1, o2) {
        (Some(k1), Some(k2)) => k1 - i1 == k2 - i2,
        (None, None) => true,
        _ => false,
    }
}

proof fn lemma_same_brackets(s1: Seq<char>, i1: int, s2: Seq<char>, i2: int, x: int)
    requires
        same_from(s1, i1, s2, i2),
        0 <= x,
    ensures
        pos_match(find_brackets(s1, i1 + x), i1, find_brackets(s2, i2 + x), i2),
    decreases s1.len() - i1 - x,
{
    lemma_same_len(s1, i1, s2, i2);
    if x + 1 < s1.len() - i1 {
        lemma_same_char(s1, i1, s2, i2, x);
        lemma_same_char(s1, i1, s2, i2, x + 1);
        lemma_same_brackets(s1, i1, s2, i2, x + 1);
    }
}

/// Two opening tags that agree up to the offsets.
pub open spec fn tags_match(t1: OpenTag, i1: int, t2: OpenTag, i2: int) -> bool {
    &&& t1.start - i1 == t2.start - i2
    &&& t1.name_start - i1 == t2.name_start - i2
    &&& t1.name_end - i1 == t2.name_end - i2
    &&& t1.head_start - i1 == t2.head_start - i2
    &&& t1.head_end - i1 == t2.head_end - i2
    &&& t1.star == t2.star
    &&& t1.score == t2.score
    &&& t1.newline == t2.newline
}

pub open spec fn tag_match(o1: Option<OpenTag>, i1: int, o2: Option<OpenTag>, i2: int) -> bool {
    match (o1, o2) {
        (Some(t1), Some(t2)) => tags_match(t1, i1, t2, i2),
        (None, None) => true,
        _ => false,
    }
}

proof fn lemma_same_open_tag(s1: Seq<char>, i1: int, s2: Seq<char>, i2: int, x: int)
    requires
        same_from(s1, i1, s2, i2),
        0 <= x,
    ensures
        tag_match(open_tag(s1, i1 + x), i1, open_tag(s2, i2 + x), i2),
{
    lemma_same_len(s1, i1, s2, i2);
    let n = s1.len() - i1;
    if x + 1 < n {
        lemma_same_char(s1, i1, s2, i2, x);
        lemma_same_char(s1, i1, s2, i2, x + 1);
        if x + 2 < n {
            lemma_same_char(s1, i1, s2, i2, x + 2);
        }
        let star = x + 2 < n && s1[i1 + x + 2] == '*';
        let ns = if star {
            x + 3
        } else {
            x + 2
        };
        lemma_same_run(s1, i1, s2, i2, ns, n, false);
        lemma_run_bounds(s1, i1 + ns, s1.len() as int, false);
        let ne = run_end(s1, i1 + ns, s1.len() as int, false) - i1;
        if ne < n && ne >= 0 {
            lemma_same_char(s1, i1, s2, i2, ne);
        }
        let score = ne < n && s1[i1 + ne] == '_';
        let hs = if score {
            ne + 1
        } else {
            ne
        };
        if hs >= 0 {
            lemma_same_brackets(s1, i1, s2, i2, hs);
            lemma_brackets_bounds(s1, i1 + hs);
            match find_brackets(s1, i1 + hs) {
                Some(k) => {
                    if k + 2 - i1 < n {
                        lemma_same_char(s1, i1, s2, i2, k + 2 - i1);
                    }
                },
                None => {},
            }
        }
    }
}

proof fn lemma_same_closer(s1: Seq<char>, i1: int, s2: Seq<char>, i2: int, x: int, id: RuleId)
    requires
        same_from(s1, i1, s2, i2),
        0 <= x,
    ensures
        pos_match(closer_at(s1, i1 + x, id), i1, closer_at(s2, i2 + x, id), i2),
{
    lemma_same_len(s1, i1, s2, i2);
    let n = s1.len() - i1;
    if x + 2 < n {
        lemma_same_char(s1, i1, s2, i2, x);
        lemma_same_char(s1, i1, s2, i2, x + 1);
        lemma_same_char(s1, i1, s2, i2, x + 2);
        lemma_same_run(s1, i1, s2, i2, x + 3, n, false);
        lemma_run_bounds(s1, i1 + x + 3, s1.len() as int, false);
        let ne = run_end(s1, i1 + x + 3, s1.len() as int, false) - i1;
        if ne + 1 < n {
            lemma_same_char(s1, i1, s2, i2, ne);
            lemma_same_char(s1, i1, s2, i2, ne + 1);
            lemma_same_sub(s1, i1, s2, i2, x + 3, ne);
        }
    }
}

proof fn lemma_same_find_closer(s1: Seq<char>, i1: int, s2: Seq<char>, i2: int, x: int, id: RuleId)
    requires
        same_from(s1, i1, s2, i2),
        0 <= x,
    ensures
        pos_match(find_closer(s1, i1 + x, id), i1, find_closer(s2, i2 + x, id), i2),
    decreases s1.len() - i1 - x,
{
    lemma_same_len(s1, i1, s2, i2);
    if x < s1.len() - i1 {
        lemma_same_closer(s1, i1, s2, i2, x, id);
        lemma_same_find_closer(s1, i1, s2, i2, x + 1, id);
    }
}

proof fn lemma_same_stops(s1: Seq<char>, i1: int, s2: Seq<char>, i2: int, x: int, closer: Option<RuleId>)
    requires
        same_from(s1, i1, s2, i2),
        0 <= x,
    ensures
        stops(s1, i1 + x, closer) == stops(s2, i2 + x, closer),
{
    lemma_same_open_tag(s1, i1, s2, i2, x);
    if let Some(id) = closer {
        lemma_same_closer(s1, i1, s2, i2, x, id);
    }
}

proof fn lemma_same_text_end(s1: Seq<char>, i1: int, s2: Seq<char>, i2: int, x: int, closer: Option<RuleId>)
    requires
        same_from(s1, i1, s2, i2),
        0 <= x,
    ensures
        text_end(s1, i1 + x, closer) - i1 == text_end(s2, i2 + x, closer) - i2,
    decreases s1.len() - i1 - x,
{
    lemma_same_len(s1, i1, s2, i2);
    if x < s1.len() - i1 {
        lemma_same_stops(s1, i1, s2, i2, x, closer);
        lemma_same_text_end(s1, i1, s2, i2, x + 1, closer);
    }
}

proof fn lemma_same_args(
    s1: Seq<char>,
    i1: int,
    s2: Seq<char>,
    i2: int,
    x: int,
    e: int,
    kind: RuleKind,
    attrs: AttrsModel,
    ex1: Seq<ParseException>,
    ex2: Seq<ParseException>,
)
    requires
        same_from(s1, i1, s2, i2),
        0 <= x,
        e <= s1.len() - i1,
    ensures
        parse_args(s1, i1 + x, i1 + e, kind, attrs, ex1).0 == parse_args(s2, i2 + x, i2 + e, kind, attrs, ex2).0,
        kinds(ex1) == kinds(ex2) ==> kinds(parse_args(s1, i1 + x, i1 + e, kind, attrs, ex1).1) == kinds(
            parse_args(s2, i2 + x, i2 + e, kind, attrs, ex2).1,
        ),
    decreases e - x,
{
    lemma_same_len(s1, i1, s2, i2);
    if x < e {
        lemma_same_char(s1, i1, s2, i2, x);
        let pos1 = i1 + x;
        let pos2 = i2 + x;
        if is_space(s1[pos1]) {
            lemma_same_args(s1, i1, s2, i2, x + 1, e, kind, attrs, ex1, ex2);
        } else {
            lemma_same_run(s1, i1, s2, i2, x, e, true);
            let ke = run_end(s1, pos1, i1 + e, true) - i1;
            if ke + 1 < e && ke >= x {
                lemma_same_char(s1, i1, s2, i2, ke);
                lemma_same_char(s1, i1, s2, i2, ke + 1);
            }
            if ke + 2 >= 0 {
                lemma_same_quote(s1, i1, s2, i2, ke + 2, e);
            }
            let q = find_quote(s1, i1 + ke + 2, i1 + e) - i1;
            if ke > x && ke + 1 < e && s1[i1 + ke] == '=' && s1[i1 + ke + 1] == '"' && ke + 2 <= q < e {
                lemma_same_sub(s1, i1, s2, i2, x, ke);
                lemma_same_sub(s1, i1, s2, i2, ke + 2, q);
                let key = s1.subrange(pos1, i1 + ke);
                let value = s1.subrange(i1 + ke + 2, i1 + q);
                if has_key(attrs, key) {
                    lemma_kinds_push(ex1, exc(ExceptionKind::DuplicateArgument, pos1, i1 + q + 1));
                    lemma_kinds_push(ex2, exc(ExceptionKind::DuplicateArgument, pos2, i2 + q + 1));
                    lemma_same_args(
                        s1,
                        i1,
                        s2,
                        i2,
                        q + 1,
                        e,
                        kind,
                        attrs,
                        ex1.push(exc(ExceptionKind::DuplicateArgument, pos1, i1 + q + 1)),
                        ex2.push(exc(ExceptionKind::DuplicateArgument, pos2, i2 + q + 1)),
                    );
                } else {
                    let e1 = if known_argument(kind, key) {
                        ex1
                    } else {
                        ex1.push(exc(ExceptionKind::UnknownArgument, pos1, i1 + q + 1))
                    };
                    let e2 = if known_argument(kind, key) {
                        ex2
                    } else {
                        ex2.push(exc(ExceptionKind::UnknownArgument, pos2, i2 + q + 1))
                    };
                    lemma_kinds_push(ex1, exc(ExceptionKind::UnknownArgument, pos1, i1 + q + 1));
                    lemma_kinds_push(ex2, exc(ExceptionKind::UnknownArgument, pos2, i2 + q + 1));
                    lemma_same_args(s1, i1, s2, i2, q + 1, e, kind, attrs.push((key, value)), e1, e2);
                }
            } else {
                lemma_same_word(s1, i1, s2, i2, x, e);
                let w1 = if pos1 < word_end(s1, pos1, i1 + e) <= i1 + e {
                    word_end(s1, pos1, i1 + e)
                } else {
                    i1 + e
                };
                let w2 = if pos2 < word_end(s2, pos2, i2 + e) <= i2 + e {
                    word_end(s2, pos2, i2 + e)
                } else {
                    i2 + e
                };
                lemma_kinds_push(ex1, exc(ExceptionKind::MalformedArgument, pos1, w1));
                lemma_kinds_push(ex2, exc(ExceptionKind::MalformedArgument, pos2, w2));
                lemma_same_args(
                    s1,
                    i1,
                    s2,
                    i2,
                    w1 - i1,
                    e,
                    kind,
                    attrs,
                    ex1.push(exc(ExceptionKind::MalformedArgument, pos1, w1)),
                    ex2.push(exc(ExceptionKind::MalformedArgument, pos2, w2)),
                );
            }
        }
    }
}


/// Two sequence parses that agree up to the offsets, exceptions aside.
pub open spec fn seq_match(o1: Option<SeqOutcome>, i1: int, o2: Option<SeqOutcome>, i2: int) -> bool {
    match (o1, o2) {
        (Some(a), Some(b)) => a.elements == b.elements && a.safe == b.safe && a.closed == b.closed
            && a.end - i1 == b.end - i2 && kinds(a.exceptions) == kinds(b.exceptions),
        (None, None) => true,
        _ => false,
    }
}

/// Two element parses that agree up to the offsets, exceptions aside.
pub open spec fn step_match(o1: Option<StepOutcome>, i1: int, o2: Option<StepOutcome>, i2: int) -> bool {
    match (o1, o2) {
        (Some(a), Some(b)) => a.element == b.element && a.safe == b.safe && a.next - i1 == b.next - i2
            && kinds(a.exceptions) == kinds(b.exceptions),
        (None, None) => true,
        _ => false,
    }
}

/// What is parsed from a position depends only on the text from there on.
pub proof fn lemma_same_seq(
    s1: Seq<char>,
    i1: int,
    s2: Seq<char>,
    i2: int,
    x: int,
    depth: int,
    closer: Option<RuleId>,
)
    requires
        same_from(s1, i1, s2, i2),
        0 <= x,
    ensures
        seq_match(parse_seq(s1, i1 + x, depth, closer), i1, parse_seq(s2, i2 + x, depth, closer), i2),
    decreases MAX_DEPTH - depth, s1.len() - i1 - x, 2int,
{
    lemma_same_len(s1, i1, s2, i2);
    if depth < 0 || depth > MAX_DEPTH {
    } else if x >= s1.len() - i1 {
        assert(kinds(seq![]) =~= Seq::<ExceptionKind>::empty());
    } else {
        assert(kinds(seq![]) =~= Seq::<ExceptionKind>::empty());
        if let Some(id) = closer {
            lemma_same_closer(s1, i1, s2, i2, x, id);
        }
        if closer is Some && closer_at(s1, i1 + x, closer->0) is Some {
        } else {
            lemma_same_step(s1, i1, s2, i2, x, depth, closer);
            match step(s1, i1 + x, depth, closer) {
                Some(st) => {
                    if st.next <= i1 + x || st.next > s1.len() {
                    } else {
                        lemma_same_seq(s1, i1, s2, i2, st.next - i1, depth, closer);
                        let st2 = step(s2, i2 + x, depth, closer)->0;
                        if let Some(rest) = parse_seq(s1, st.next, depth, closer) {
                            let rest2 = parse_seq(s2, st2.next, depth, closer)->0;
                            lemma_kinds_concat(st.exceptions, rest.exceptions);
                            lemma_kinds_concat(st2.exceptions, rest2.exceptions);
                        }
                    }
                },
                None => {},
            }
        }
    }
}

/// The element parsed at a position depends only on the text from there on.
pub proof fn lemma_same_step(
    s1: Seq<char>,
    i1: int,
    s2: Seq<char>,
    i2: int,
    x: int,
    depth: int,
    closer: Option<RuleId>,
)
    requires
        same_from(s1, i1, s2, i2),
        0 <= x,
        x < s1.len() - i1,
    ensures
        step_match(step(s1, i1 + x, depth, closer), i1, step(s2, i2 + x, depth, closer), i2),
    decreases MAX_DEPTH - depth, s1.len() - i1 - x, 1int,
{
    lemma_same_len(s1, i1, s2, i2);
    let n = s1.len() - i1;
    let pos1 = i1 + x;
    let pos2 = i2 + x;
    if depth < 0 || depth > MAX_DEPTH {
        return;
    }
    lemma_same_open_tag(s1, i1, s2, i2, x);
    match open_tag(s1, pos1) {
        None => {
            lemma_same_text_end(s1, i1, s2, i2, x + 1, closer);
            let e = text_end(s1, pos1 + 1, closer) - i1;
            lemma_text_end_bounds(s1, pos1 + 1, closer);
            lemma_same_sub(s1, i1, s2, i2, x, e);
            assert(kinds(seq![]) =~= Seq::<ExceptionKind>::empty());
        },
        Some(t1) => {
            lemma_same_block(s1, i1, s2, i2, x, depth, closer);
        },
    }
}

proof fn lemma_same_block(
    s1: Seq<char>,
    i1: int,
    s2: Seq<char>,
    i2: int,
    x: int,
    depth: int,
    closer: Option<RuleId>,
)
    requires
        same_from(s1, i1, s2, i2),
        0 <= x < s1.len() - i1,
        0 <= depth <= MAX_DEPTH,
        open_tag(s1, i1 + x) is Some,
        tag_match(open_tag(s1, i1 + x), i1, open_tag(s2, i2 + x), i2),
    ensures
        step_match(step(s1, i1 + x, depth, closer), i1, step(s2, i2 + x, depth, closer), i2),
    decreases MAX_DEPTH - depth, s1.len() - i1 - x, 0int,
{
    lemma_same_len(s1, i1, s2, i2);
    let pos1 = i1 + x;
    let t1 = open_tag(s1, pos1)->0;
    let t2 = open_tag(s2, i2 + x)->0;
    lemma_tag_bounds(s1, pos1);
    lemma_same_sub(s1, i1, s2, i2, t1.name_start - i1, t1.name_end - i1);
    lemma_same_sub(s1, i1, s2, i2, x, t1.end() - i1);
    assert(s1.subrange(t1.name_start as int, t1.name_end as int) == s2.subrange(
        t2.name_start as int,
        t2.name_end as int,
    ));
    lemma_kinds_push(seq![], exc(ExceptionKind::NoSuchBlock, pos1, t1.end()));
    lemma_kinds_push(seq![], exc(ExceptionKind::NoSuchBlock, i2 + x, t2.end()));
    assert(seq![exc(ExceptionKind::NoSuchBlock, pos1, t1.end())] == Seq::<ParseException>::empty().push(
        exc(ExceptionKind::NoSuchBlock, pos1, t1.end()),
    ));
    assert(seq![exc(ExceptionKind::NoSuchBlock, i2 + x, t2.end())] == Seq::<ParseException>::empty().push(
        exc(ExceptionKind::NoSuchBlock, i2 + x, t2.end()),
    ));
    assert(kinds(Seq::<ParseException>::empty()) =~= Seq::<ExceptionKind>::empty());
    if depth < MAX_DEPTH {
        if let Some(id) = lookup(s1.subrange(t1.name_start as int, t1.name_end as int)) {
            lemma_same_rule_block(s1, i1, s2, i2, pos1, i2 + x, depth, closer, id);
        }
    }
}

/// Two tags that resolve to the same rule, and whose heads and bodies agree
/// up to the offsets, parse to the same element, however their names are
/// written.
#[verifier::rlimit(60)]
proof fn lemma_same_rule_block(
    s1: Seq<char>,
    i1: int,
    s2: Seq<char>,
    i2: int,
    pos1: int,
    pos2: int,
    depth: int,
    closer: Option<RuleId>,
    id: RuleId,
)
    requires
        same_from(s1, i1, s2, i2),
        0 <= depth < MAX_DEPTH,
        0 <= pos1,
        0 <= pos2,
        open_tag(s1, pos1) is Some,
        open_tag(s2, pos2) is Some,
        lookup(s1.subrange(open_tag(s1, pos1)->0.name_start as int, open_tag(s1, pos1)->0.name_end as int))
            == Some(id),
        lookup(s2.subrange(open_tag(s2, pos2)->0.name_start as int, open_tag(s2, pos2)->0.name_end as int))
            == Some(id),
        i1 <= open_tag(s1, pos1)->0.head_start,
        open_tag(s1, pos1)->0.head_start - i1 == open_tag(s2, pos2)->0.head_start - i2,
        open_tag(s1, pos1)->0.head_end - i1 == open_tag(s2, pos2)->0.head_end - i2,
        open_tag(s1, pos1)->0.score == open_tag(s2, pos2)->0.score,
        open_tag(s1, pos1)->0.star == open_tag(s2, pos2)->0.star,
        open_tag(s1, pos1)->0.newline == open_tag(s2, pos2)->0.newline,
        block_closes(s1, open_tag(s1, pos1)->0, id, depth) || s1.subrange(
            pos1,
            open_tag(s1, pos1)->0.end(),
        ) == s2.subrange(pos2, open_tag(s2, pos2)->0.end()),
    ensures
        step_match(step(s1, pos1, depth, closer), i1, step(s2, pos2, depth, closer), i2),
    decreases MAX_DEPTH - depth, 0int, 0int,
{
    lemma_same_len(s1, i1, s2, i2);
    let n = s1.len() - i1;
    let t1 = open_tag(s1, pos1)->0;
    let t2 = open_tag(s2, pos2)->0;
    lemma_tag_bounds(s1, pos1);
    lemma_tag_bounds(s2, pos2);
    assert(t2.end() - i2 == t1.end() - i1);
    let r = id.spec_rule();
    lemma_same_args(
        s1,
        i1,
        s2,
        i2,
        t1.head_start - i1,
        t1.head_end - i1,
        r.kind,
        seq![],
        seq![],
        seq![],
    );
    lemma_flag_kinds(t1, t2, r);
    lemma_unclosed_kinds(s1, t1, s2, t2);
    let args1 = parse_args(s1, t1.head_start as int, t1.head_end as int, r.kind, seq![], seq![]);
    let args2 = parse_args(s2, t2.head_start as int, t2.head_end as int, r.kind, seq![], seq![]);
    assert(t1.head_start as int == i1 + (t1.head_start - i1));
    assert(t2.head_start as int == i2 + (t1.head_start - i1));
    lemma_kinds_concat(flag_exceptions(t1, r), args1.1);
    lemma_kinds_concat(flag_exceptions(t2, r), args2.1);
    let head1 = flag_exceptions(t1, r) + args1.1;
    let head2 = flag_exceptions(t2, r) + args2.1;
    match r.kind {
        RuleKind::Container(_) => {
            lemma_same_find_closer(s1, i1, s2, i2, t1.end() - i1, id);
            lemma_same_seq(s1, i1, s2, i2, t1.end() - i1, depth + 1, Some(id));
            if let Some(b1) = parse_seq(s1, t1.end(), depth + 1, Some(id)) {
                let b2 = parse_seq(s2, t2.end(), depth + 1, Some(id))->0;
                lemma_kinds_concat(head1, b1.exceptions);
                lemma_kinds_concat(head2, b2.exceptions);
            }
        },
        RuleKind::Footnote => {
            lemma_same_find_closer(s1, i1, s2, i2, t1.end() - i1, id);
            lemma_same_sub(s1, i1, s2, i2, t1.end() - i1, n);
            match find_closer(s1, t1.end(), id) {
                Some(q) => {
                    lemma_find_closer_bounds(s1, t1.end(), id);
                    lemma_same_sub(s1, i1, s2, i2, t1.end() - i1, q - i1);
                    lemma_same_closer(s1, i1, s2, i2, q - i1, id);
                },
                None => {},
            }
        },
        RuleKind::FootnoteBlock => {},
    }
}

proof fn lemma_flag_kinds(t1: OpenTag, t2: OpenTag, r: crate::rule::BlockRule)
    requires
        t1.star == t2.star,
        t1.score == t2.score,
        t1.newline == t2.newline,
    ensures
        kinds(flag_exceptions(t1, r)) == kinds(flag_exceptions(t2, r)),
{
    assert(kinds(flag_exceptions(t1, r)) =~= kinds(flag_exceptions(t2, r)));
}

proof fn lemma_unclosed_kinds(s1: Seq<char>, t1: OpenTag, s2: Seq<char>, t2: OpenTag)
    ensures
        kinds(unclosed(s1, t1).exceptions) == kinds(unclosed(s2, t2).exceptions),
{
    assert(kinds(unclosed(s1, t1).exceptions) =~= kinds(unclosed(s2, t2).exceptions));
}

proof fn lemma_text_end_bounds(s: Seq<char>, q: int, closer: Option<RuleId>)
    requires
        0 <= q <= s.len(),
    ensures
        q <= text_end(s, q, closer) <= s.len(),
    decreases s.len() - q,
{
    if q < s.len() {
        lemma_text_end_bounds(s, q + 1, closer);
    }
}

proof fn lemma_tag_bounds(s: Seq<char>, p: int)
    requires
        0 <= p,
        s.len() <= usize::MAX,
        open_tag(s, p) is Some,
    ensures
        p + 2 <= open_tag(s, p)->0.name_start <= open_tag(s, p)->0.name_end <= open_tag(s, p)->0.head_start
            <= open_tag(s, p)->0.head_end,
        open_tag(s, p)->0.end() <= s.len(),
        open_tag(s, p)->0.start == p,
{
    let star = p + 2 < s.len() && s[p + 2] == '*';
    let ns = if star {
        p + 3
    } else {
        p + 2
    };
    lemma_run_bounds(s, ns, s.len() as int, false);
    let ne = run_end(s, ns, s.len() as int, false);
    let score = ne < s.len() && s[ne] == '_';
    let hs = if score {
        ne + 1
    } else {
        ne
    };
    lemma_brackets_bounds(s, hs);
}

proof fn lemma_find_closer_bounds(s: Seq<char>, q: int, id: RuleId)
    requires
        0 <= q,
    ensures
        find_closer(s, q, id) matches Some(k) ==> q <= k < s.len() && closer_at(s, k, id) is Some,
    decreases s.len() - q,
{
    if q < s.len() {
        lemma_find_closer_bounds(s, q + 1, id);
    }
}


/// Every name a rule accepts is a non-empty run of name characters.
pub proof fn lemma_accepted_names_are_names(id: RuleId, name: Seq<char>)
    requires
        id.accepts(name),
    ensures
        name.len() > 0,
        forall|k: int| 0 <= k < name.len() ==> is_name_char(#[trigger] name[k]),
{
    if name == "b"@ {
        reveal_strlit("b");
        assert forall|k: int| 0 <= k < name.len() implies is_name_char(#[trigger] name[k]) by {
            assert(k == 0);
        }
    }
    if name == "bold"@ {
        reveal_strlit("bold");
        assert forall|k: int| 0 <= k < name.len() implies is_name_char(#[trigger] name[k]) by {
            assert(k == 0 || k == 1 || k == 2 || k == 3);
        }
    }
    if name == "strong"@ {
        reveal_strlit("strong");
        assert forall|k: int| 0 <= k < name.len() implies is_name_char(#[trigger] name[k]) by {
            assert(k == 0 || k == 1 || k == 2 || k == 3 || k == 4 || k == 5);
        }
    }
    if name == "i"@ {
        reveal_strlit("i");
        assert forall|k: int| 0 <= k < name.len() implies is_name_char(#[trigger] name[k]) by {
            assert(k == 0);
        }
    }
    if name == "italics"@ {
        reveal_strlit("italics");
        assert forall|k: int| 0 <= k < name.len() implies is_name_char(#[trigger] name[k]) by {
            assert(k == 0 || k == 1 || k == 2 || k == 3 || k == 4 || k == 5 || k == 6);
        }
    }
    if name == "em"@ {
        reveal_strlit("em");
        assert forall|k: int| 0 <= k < name.len() implies is_name_char(#[trigger] name[k]) by {
            assert(k == 0 || k == 1);
        }
    }
    if name == "u"@ {
        reveal_strlit("u");
        assert forall|k: int| 0 <= k < name.len() implies is_name_char(#[trigger] name[k]) by {
            assert(k == 0);
        }
    }
    if name == "underline"@ {
        reveal_strlit("underline");
        assert forall|k: int| 0 <= k < name.len() implies is_name_char(#[trigger] name[k]) by {
            assert(k == 0 || k == 1 || k == 2 || k == 3 || k == 4 || k == 5 || k == 6 || k == 7 || k == 8);
        }
    }
    if name == "s"@ {
        reveal_strlit("s");
        assert forall|k: int| 0 <= k < name.len() implies is_name_char(#[trigger] name[k]) by {
            assert(k == 0);
        }
    }
    if name == "strikethrough"@ {
        reveal_strlit("strikethrough");
        assert forall|k: int| 0 <= k < name.len() implies is_name_char(#[trigger] name[k]) by {
            assert(k == 0 || k == 1 || k == 2 || k == 3 || k == 4 || k == 5 || k == 6 || k == 7 || k == 8 || k == 9 || k == 10 || k == 11 || k == 12);
        }
    }
    if name == "del"@ {
        reveal_strlit("del");
        assert forall|k: int| 0 <= k < name.len() implies is_name_char(#[trigger] name[k]) by {
            assert(k == 0 || k == 1 || k == 2);
        }
    }
    if name == "deletion"@ {
        reveal_strlit("deletion");
        assert forall|k: int| 0 <= k < name.len() implies is_name_char(#[trigger] name[k]) by {
            assert(k == 0 || k == 1 || k == 2 || k == 3 || k == 4 || k == 5 || k == 6 || k == 7);
        }
    }
    if name == "ins"@ {
        reveal_strlit("ins");
        assert forall|k: int| 0 <= k < name.len() implies is_name_char(#[trigger] name[k]) by {
            assert(k == 0 || k == 1 || k == 2);
        }
    }
    if name == "insertion"@ {
        reveal_strlit("insertion");
        assert forall|k: int| 0 <= k < name.len() implies is_name_char(#[trigger] name[k]) by {
            assert(k == 0 || k == 1 || k == 2 || k == 3 || k == 4 || k == 5 || k == 6 || k == 7 || k == 8);
        }
    }
    if name == "mark"@ {
        reveal_strlit("mark");
        assert forall|k: int| 0 <= k < name.len() implies is_name_char(#[trigger] name[k]) by {
            assert(k == 0 || k == 1 || k == 2 || k == 3);
        }
    }
    if name == "highlight"@ {
        reveal_strlit("highlight");
        assert forall|k: int| 0 <= k < name.len() implies is_name_char(#[trigger] name[k]) by {
            assert(k == 0 || k == 1 || k == 2 || k == 3 || k == 4 || k == 5 || k == 6 || k == 7 || k == 8);
        }
    }
    if name == "sup"@ {
        reveal_strlit("sup");
        assert forall|k: int| 0 <= k < name.len() implies is_name_char(#[trigger] name[k]) by {
            assert(k == 0 || k == 1 || k == 2);
        }
    }
    if name == "super"@ {
        reveal_strlit("super");
        assert forall|k: int| 0 <= k < name.len() implies is_name_char(#[trigger] name[k]) by {
            assert(k == 0 || k == 1 || k == 2 || k == 3 || k == 4);
        }
    }
    if name == "superscript"@ {
        reveal_strlit("superscript");
        assert forall|k: int| 0 <= k < name.len() implies is_name_char(#[trigger] name[k]) by {
            assert(k == 0 || k == 1 || k == 2 || k == 3 || k == 4 || k == 5 || k == 6 || k == 7 || k == 8 || k == 9 || k == 10);
        }
    }
    if name == "sub"@ {
        reveal_strlit("sub");
        assert forall|k: int| 0 <= k < name.len() implies is_name_char(#[trigger] name[k]) by {
            assert(k == 0 || k == 1 || k == 2);
        }
    }
    if name == "subscript"@ {
        reveal_strlit("subscript");
        assert forall|k: int| 0 <= k < name.len() implies is_name_char(#[trigger] name[k]) by {
            assert(k == 0 || k == 1 || k == 2 || k == 3 || k == 4 || k == 5 || k == 6 || k == 7 || k == 8);
        }
    }
    if name == "tt"@ {
        reveal_strlit("tt");
        assert forall|k: int| 0 <= k < name.len() implies is_name_char(#[trigger] name[k]) by {
            assert(k == 0 || k == 1);
        }
    }
    if name == "mono"@ {
        reveal_strlit("mono");
        assert forall|k: int| 0 <= k < name.len() implies is_name_char(#[trigger] name[k]) by {
            assert(k == 0 || k == 1 || k == 2 || k == 3);
        }
    }
    if name == "monospace"@ {
        reveal_strlit("monospace");
        assert forall|k: int| 0 <= k < name.len() implies is_name_char(#[trigger] name[k]) by {
            assert(k == 0 || k == 1 || k == 2 || k == 3 || k == 4 || k == 5 || k == 6 || k == 7 || k == 8);
        }
    }
    if name == "span"@ {
        reveal_strlit("span");
        assert forall|k: int| 0 <= k < name.len() implies is_name_char(#[trigger] name[k]) by {
            assert(k == 0 || k == 1 || k == 2 || k == 3);
        }
    }
    if name == "div"@ {
        reveal_strlit("div");
        assert forall|k: int| 0 <= k < name.len() implies is_name_char(#[trigger] name[k]) by {
            assert(k == 0 || k == 1 || k == 2);
        }
    }
    if name == "blockquote"@ {
        reveal_strlit("blockquote");
        assert forall|k: int| 0 <= k < name.len() implies is_name_char(#[trigger] name[k]) by {
            assert(k == 0 || k == 1 || k == 2 || k == 3 || k == 4 || k == 5 || k == 6 || k == 7 || k == 8 || k == 9);
        }
    }
    if name == "quote"@ {
        reveal_strlit("quote");
        assert forall|k: int| 0 <= k < name.len() implies is_name_char(#[trigger] name[k]) by {
            assert(k == 0 || k == 1 || k == 2 || k == 3 || k == 4);
        }
    }
    if name == "footnote"@ {
        reveal_strlit("footnote");
        assert forall|k: int| 0 <= k < name.len() implies is_name_char(#[trigger] name[k]) by {
            assert(k == 0 || k == 1 || k == 2 || k == 3 || k == 4 || k == 5 || k == 6 || k == 7);
        }
    }
    if name == "footnoteblock"@ {
        reveal_strlit("footnoteblock");
        assert forall|k: int| 0 <= k < name.len() implies is_name_char(#[trigger] name[k]) by {
            assert(k == 0 || k == 1 || k == 2 || k == 3 || k == 4 || k == 5 || k == 6 || k == 7 || k == 8 || k == 9 || k == 10 || k == 11 || k == 12);
        }
    }
}

proof fn lemma_run_through(s: Seq<char>, i: int, j: int, end: int)
    requires
        0 <= i <= j <= end <= s.len(),
        forall|k: int| i <= k < j ==> is_name_char(#[trigger] s[k]),
        j == end || !is_name_char(s[j]),
    ensures
        run_end(s, i, end, false) == j,
    decreases j - i,
{
    if i < j {
        lemma_run_through(s, i + 1, j, end);
    }
}

proof fn lemma_seq_end_bounds(s: Seq<char>, pos: int, depth: int, closer: Option<RuleId>)
    requires
        0 <= pos <= s.len(),
        parse_seq(s, pos, depth, closer) is Some,
    ensures
        pos <= parse_seq(s, pos, depth, closer)->0.end <= s.len(),
    decreases s.len() - pos,
{
    if pos < s.len() {
        if let Some(id) = closer {
            if closer_at(s, pos, id) is Some {
                let ne = run_end(s, pos + 3, s.len() as int, false);
                lemma_run_bounds(s, pos + 3, s.len() as int, false);
                return;
            }
        }
        let st = step(s, pos, depth, closer)->0;
        lemma_seq_end_bounds(s, st.next, depth, closer);
    }
}

proof fn lemma_block_next_bound(s: Seq<char>, p: int, depth: int, closer: Option<RuleId>, id: RuleId)
    requires
        0 <= p,
        0 <= depth < MAX_DEPTH,
        s.len() <= usize::MAX,
        open_tag(s, p) is Some,
        lookup(s.subrange(open_tag(s, p)->0.name_start as int, open_tag(s, p)->0.name_end as int))
            == Some(id),
        step(s, p, depth, closer) is Some,
    ensures
        step(s, p, depth, closer)->0.next >= open_tag(s, p)->0.end(),
{
    let t = open_tag(s, p)->0;
    lemma_tag_bounds(s, p);
    match id.spec_rule().kind {
        RuleKind::Container(_) => {
            if parse_seq(s, t.end(), depth + 1, Some(id)) is Some {
                lemma_seq_end_bounds(s, t.end(), depth + 1, Some(id));
            }
        },
        RuleKind::Footnote => {
            lemma_find_closer_bounds(s, t.end(), id);
            if let Some(q) = find_closer(s, t.end(), id) {
                lemma_run_bounds(s, q + 3, s.len() as int, false);
            }
        },
        RuleKind::FootnoteBlock => {},
    }
}

/// `[[`, a block name, then the rest of the markup.
pub open spec fn block_markup(name: Seq<char>, rest: Seq<char>) -> Seq<char> {
    seq!['[', '['] + name + rest
}

/// Whether the markup after a block name starts with the score modifier.
pub open spec fn score_of(rest: Seq<char>) -> int {
    if rest.len() > 0 && rest[0] == '_' {
        1
    } else {
        0
    }
}

proof fn lemma_markup_tag(name: Seq<char>, rest: Seq<char>)
    requires
        name.len() > 0,
        forall|k: int| 0 <= k < name.len() ==> is_name_char(#[trigger] name[k]),
        rest.len() > 0 ==> !is_name_char(rest[0]),
        block_markup(name, rest).len() <= usize::MAX,
    ensures
        block_markup(name, rest).subrange(2 + name.len() as int, block_markup(name, rest).len() as int) == rest,
        block_markup(name, rest).subrange(2, 2 + name.len() as int) == name,
        (open_tag(block_markup(name, rest), 0) is Some) == (find_brackets(
            block_markup(name, rest),
            2 + name.len() + score_of(rest),
        ) is Some),
        open_tag(block_markup(name, rest), 0) is Some ==> ({
            let t = open_tag(block_markup(name, rest), 0)->0;
            &&& t.name_start == 2
            &&& t.name_end == 2 + name.len()
            &&& t.head_start == 2 + name.len() + score_of(rest)
            &&& t.head_end == find_brackets(block_markup(name, rest), 2 + name.len() + score_of(rest))->0
            &&& t.score == (score_of(rest) == 1)
        }),
{
    let s = block_markup(name, rest);
    let i: int = 2 + name.len() as int;
    assert(s.subrange(i, s.len() as int) =~= rest);
    assert(s.subrange(2, i) =~= name);
    assert forall|k: int| 2 <= k < i implies is_name_char(#[trigger] s[k]) by {
        assert(s[k] == name[k - 2]);
    }
    if rest.len() > 0 {
        assert(s[i] == rest[0]);
    }
    lemma_run_through(s, 2, i, s.len() as int);
    assert(s[2] == name[0]);
    lemma_brackets_bounds(s, i + score_of(rest));
}

#[verifier::rlimit(100)]
proof fn lemma_alias_step(id: RuleId, alias: Seq<char>, rest: Seq<char>)
    requires
        id.accepts(alias),
        rest.len() > 0 ==> !is_name_char(rest[0]),
        open_tag(block_markup(alias, rest), 0) is Some,
        block_closes(block_markup(alias, rest), open_tag(block_markup(alias, rest), 0)->0, id, 0),
        block_markup(alias, rest).len() <= usize::MAX,
        block_markup(id.names()[0], rest).len() <= usize::MAX,
    ensures
        same_from(
            block_markup(alias, rest),
            2 + alias.len() as int,
            block_markup(id.names()[0], rest),
            2 + id.names()[0].len() as int,
        ),
        step_match(
            step(block_markup(alias, rest), 0, 0, None),
            2 + alias.len() as int,
            step(block_markup(id.names()[0], rest), 0, 0, None),
            2 + id.names()[0].len() as int,
        ),
        step(block_markup(alias, rest), 0, 0, None) is Some ==> step(block_markup(alias, rest), 0, 0, None)->0.next
            >= 2 + alias.len(),
{
    let a = alias;
    let c = id.names()[0];
    assert(id.accepts(c));
    lemma_names_unique(id, a);
    lemma_names_unique(id, c);
    lemma_accepted_names_are_names(id, a);
    lemma_accepted_names_are_names(id, c);
    lemma_markup_tag(a, rest);
    lemma_markup_tag(c, rest);
    let s1 = block_markup(a, rest);
    let s2 = block_markup(c, rest);
    let i1: int = 2 + a.len() as int;
    let i2: int = 2 + c.len() as int;
    assert(same_from(s1, i1, s2, i2));
    lemma_same_brackets(s1, i1, s2, i2, score_of(rest));
    lemma_tag_bounds(s1, 0);
    lemma_same_rule_block(s1, i1, s2, i2, 0, 0, 0, None, id);
    if step(s1, 0, 0, None) is Some {
        lemma_block_next_bound(s1, 0, 0, None, id);
    }
}

/// Alias transparency: a valid block (one closed by its rule's own tag)
/// written with an alias of a rule parses
/// to the same elements, with the same paragraph safety and the same kinds
/// of exceptions in the same order (their spans shift with the name), as
/// the same block written with the rule's canonical name; and one fails
/// exactly when the other does.
pub proof fn lemma_alias_same_shape(id: RuleId, alias: Seq<char>, rest: Seq<char>)
    requires
        id.accepts(alias),
        rest.len() > 0 ==> !is_name_char(rest[0]),
        open_tag(block_markup(alias, rest), 0) is Some,
        block_closes(block_markup(alias, rest), open_tag(block_markup(alias, rest), 0)->0, id, 0),
        block_markup(alias, rest).len() <= usize::MAX,
        block_markup(id.names()[0], rest).len() <= usize::MAX,
    ensures
        (parse_document(block_markup(alias, rest)) is None) == (parse_document(
            block_markup(id.names()[0], rest),
        ) is None),
        parse_document(block_markup(alias, rest)) is Some ==> parse_document(
            block_markup(alias, rest),
        )->0.elements == parse_document(block_markup(id.names()[0], rest))->0.elements && parse_document(
            block_markup(alias, rest),
        )->0.safe == parse_document(block_markup(id.names()[0], rest))->0.safe && kinds(
            parse_document(block_markup(alias, rest))->0.exceptions,
        ) == kinds(parse_document(block_markup(id.names()[0], rest))->0.exceptions),
{
    lemma_alias_step(id, alias, rest);
    lemma_same_document(
        block_markup(alias, rest),
        2 + alias.len() as int,
        block_markup(id.names()[0], rest),
        2 + id.names()[0].len() as int,
    );
}

proof fn lemma_same_document(s1: Seq<char>, i1: int, s2: Seq<char>, i2: int)
    requires
        same_from(s1, i1, s2, i2),
        0 < i1,
        0 < i2,
        step_match(step(s1, 0, 0, None), i1, step(s2, 0, 0, None), i2),
        step(s1, 0, 0, None) is Some ==> step(s1, 0, 0, None)->0.next >= i1,
    ensures
        (parse_document(s1) is None) == (parse_document(s2) is None),
        parse_document(s1) is Some ==> parse_document(s1)->0.elements == parse_document(s2)->0.elements
            && parse_document(s1)->0.safe == parse_document(s2)->0.safe && kinds(
            parse_document(s1)->0.exceptions,
        ) == kinds(parse_document(s2)->0.exceptions),
{
    lemma_same_len(s1, i1, s2, i2);
    if step(s1, 0, 0, None) is Some {
        let st1 = step(s1, 0, 0, None)->0;
        let st2 = step(s2, 0, 0, None)->0;
        let d = st1.next - i1;
        lemma_same_seq(s1, i1, s2, i2, d, 0, None);
        if let Some(rest1) = parse_seq(s1, st1.next, 0, None) {
            let rest2 = parse_seq(s2, st2.next, 0, None)->0;
            lemma_kinds_concat(st1.exceptions, rest1.exceptions);
            lemma_kinds_concat(st2.exceptions, rest2.exceptions);
        }
    }
}

} // verus!
