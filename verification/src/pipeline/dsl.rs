//! The pipeline DSL: `provider:action -> provider:action -> ...`. This module
//! gives the mathematical account of parsing and formatting, and proves that
//! formatting a parsed pipeline and parsing it again yields the same steps.

use vstd::prelude::*;
use crate::strutil::{is_space, trim_seq, trim_start_seq, trim_end_seq, find_char, find_sub,
    contains_sub, occurs_at, lemma_find_char_props, lemma_find_char_at, lemma_find_sub_props,
    lemma_find_sub_at, lemma_trim_start_skip, lemma_trim_end_take, lemma_trim_of_trimmed};

verus! {

/// Why a DSL string was rejected.
#[derive(Clone, Copy, PartialEq, Eq, Structural, Debug)]
pub enum ParseError {
    /// The whole input is empty or whitespace.
    EmptyPipeline,
    /// A step between two arrows is empty.
    EmptySegment,
    /// A step has no `:` separator.
    MissingColon,
    /// The part before the first `:` is empty.
    EmptyProvider,
    /// The part after the first `:` is empty.
    EmptyAction,
}

/// The text of each parse failure.
pub open spec fn parse_error_text(e: ParseError) -> Seq<char> {
    match e {
        ParseError::EmptyPipeline => "Pipeline string cannot be empty"@,
        ParseError::EmptySegment => "Pipeline step cannot be empty"@,
        ParseError::MissingColon => "Invalid pipeline step format (missing ':')"@,
        ParseError::EmptyProvider => "Provider cannot be empty in step"@,
        ParseError::EmptyAction => "Action cannot be empty in step"@,
    }
}

impl ParseError {
    /// A short description of the failure.
    pub fn message(&self) -> (r: String)
        ensures
            r@ == parse_error_text(*self),
    {
        match self {
            ParseError::EmptyPipeline => String::from_str("Pipeline string cannot be empty"),
            ParseError::EmptySegment => String::from_str("Pipeline step cannot be empty"),
            ParseError::MissingColon => String::from_str(
                "Invalid pipeline step format (missing ':')",
            ),
            ParseError::EmptyProvider => String::from_str("Provider cannot be empty in step"),
            ParseError::EmptyAction => String::from_str("Action cannot be empty in step"),
        }
    }
}

/// The arrow token that separates steps.
pub open spec fn arrow() -> Seq<char> {
    seq!['-', '>']
}

/// The separator that formatting writes between steps.
pub open spec fn fmt_sep() -> Seq<char> {
    seq![' ', '-', '>', ' ']
}

/// The input split at every arrow token, left to right.
pub open spec fn split_arrows(s: Seq<char>) -> Seq<Seq<char>>
    decreases s.len(),
    via split_arrows_decreases
{
    match find_sub(s, arrow()) {
        None => seq![s],
        Some(i) => seq![s.take(i)] + split_arrows(s.skip(i + 2)),
    }
}

#[via_fn]
proof fn split_arrows_decreases(s: Seq<char>) {
    lemma_find_sub_props(s, arrow());
}

/// One trimmed segment parsed into a `(provider, action)` pair: the first `:`
/// splits it, both halves are trimmed, and neither may be empty.
pub open spec fn parse_step_seq(seg: Seq<char>) -> Result<(Seq<char>, Seq<char>), ParseError> {
    if seg.len() == 0 {
        Err(ParseError::EmptySegment)
    } else {
        match find_char(seg, ':') {
            None => Err(ParseError::MissingColon),
            Some(i) => {
                let provider = trim_seq(seg.take(i));
                let action = trim_seq(seg.skip(i + 1));
                if provider.len() == 0 {
                    Err(ParseError::EmptyProvider)
                } else if action.len() == 0 {
                    Err(ParseError::EmptyAction)
                } else {
                    Ok((provider, action))
                }
            },
        }
    }
}

/// All segments parsed in order; the first failure wins.
pub open spec fn parse_segments(segs: Seq<Seq<char>>) -> Result<
    Seq<(Seq<char>, Seq<char>)>,
    ParseError,
>
    decreases segs.len(),
{
    if segs.len() == 0 {
        Ok(Seq::empty())
    } else {
        match parse_step_seq(trim_seq(segs[0])) {
            Err(e) => Err(e),
            Ok(p) => match parse_segments(segs.skip(1)) {
                Err(e) => Err(e),
                Ok(rest) => Ok(seq![p] + rest),
            },
        }
    }
}

/// A whole DSL string parsed: trimmed, split at arrows, each segment parsed.
pub open spec fn parse_dsl(input: Seq<char>) -> Result<
    Seq<(Seq<char>, Seq<char>)>,
    ParseError,
> {
    let t = trim_seq(input);
    if t.len() == 0 {
        Err(ParseError::EmptyPipeline)
    } else {
        parse_segments(split_arrows(t))
    }
}

/// One step written back as `provider:action`.
pub open spec fn step_text(p: (Seq<char>, Seq<char>)) -> Seq<char> {
    p.0 + seq![':'] + p.1
}

/// The steps after the first, each preceded by the separator.
pub open spec fn format_rest(pairs: Seq<(Seq<char>, Seq<char>)>) -> Seq<char>
    decreases pairs.len(),
{
    if pairs.len() == 0 {
        Seq::empty()
    } else {
        fmt_sep() + step_text(pairs[0]) + format_rest(pairs.skip(1))
    }
}

/// A step list written back as a DSL string.
pub open spec fn format_steps(pairs: Seq<(Seq<char>, Seq<char>)>) -> Seq<char> {
    if pairs.len() == 0 {
        Seq::empty()
    } else {
        step_text(pairs[0]) + format_rest(pairs.skip(1))
    }
}

/// What parsing guarantees of every pair it returns: both halves are trimmed
/// and non-empty, the provider holds no colon, and neither holds an arrow.
pub open spec fn wf_pair(p: (Seq<char>, Seq<char>)) -> bool {
    &&& p.0.len() > 0
    &&& p.1.len() > 0
    &&& trim_seq(p.0) == p.0
    &&& trim_seq(p.1) == p.1
    &&& find_char(p.0, ':') is None
    &&& !contains_sub(p.0, arrow())
    &&& !contains_sub(p.1, arrow())
}

// --- facts about trimming ---

/// A trimmed string is some contiguous stretch of the original.
pub proof fn lemma_trim_is_infix(s: Seq<char>) -> (r: (int, int))
    ensures
        0 <= r.0 <= r.1 <= s.len(),
        trim_seq(s) == s.subrange(r.0, r.1),
    decreases s.len(),
{
    if s.len() == 0 {
        assert(s.subrange(0, 0) =~= s);
        (0, 0)
    } else if is_space(s[0]) {
        assert(trim_start_seq(s) == trim_start_seq(s.skip(1)));
        let (a, b) = lemma_trim_is_infix(s.skip(1));
        assert(s.skip(1).subrange(a, b) =~= s.subrange(a + 1, b + 1));
        (a + 1, b + 1)
    } else {
        assert(trim_start_seq(s) == s);
        let b = lemma_trim_end_is_prefix(s);
        (0, b)
    }
}

proof fn lemma_trim_end_is_prefix(s: Seq<char>) -> (b: int)
    ensures
        0 <= b <= s.len(),
        trim_end_seq(s) == s.subrange(0, b),
    decreases s.len(),
{
    if s.len() == 0 {
        assert(s.subrange(0, 0) =~= s);
        0
    } else if is_space(s.last()) {
        let b = lemma_trim_end_is_prefix(s.drop_last());
        assert(s.drop_last().subrange(0, b) =~= s.subrange(0, b));
        b
    } else {
        assert(s.subrange(0, s.len() as int) =~= s);
        s.len() as int
    }
}

/// A non-empty trimmed string neither starts nor ends with whitespace.
pub proof fn lemma_trim_result_ends(s: Seq<char>)
    requires
        trim_seq(s).len() > 0,
    ensures
        !is_space(trim_seq(s)[0]),
        !is_space(trim_seq(s).last()),
{
    lemma_trim_start_head(s);
    lemma_trim_end_last(trim_start_seq(s));
    lemma_trim_end_head(trim_start_seq(s));
}

proof fn lemma_trim_start_head(s: Seq<char>)
    ensures
        trim_start_seq(s).len() > 0 ==> !is_space(trim_start_seq(s)[0]),
    decreases s.len(),
{
    if s.len() > 0 && is_space(s[0]) {
        lemma_trim_start_head(s.skip(1));
    }
}

proof fn lemma_trim_end_last(t: Seq<char>)
    ensures
        trim_end_seq(t).len() > 0 ==> !is_space(trim_end_seq(t).last()),
    decreases t.len(),
{
    if t.len() > 0 && is_space(t.last()) {
        lemma_trim_end_last(t.drop_last());
    }
}

proof fn lemma_trim_end_head(t: Seq<char>)
    ensures
        trim_end_seq(t).len() > 0 ==> trim_end_seq(t)[0] == t[0],
    decreases t.len(),
{
    if t.len() > 0 && is_space(t.last()) {
        lemma_trim_end_head(t.drop_last());
    }
}

/// Trimming is idempotent.
pub proof fn lemma_trim_idempotent(s: Seq<char>)
    ensures
        trim_seq(trim_seq(s)) == trim_seq(s),
{
    if trim_seq(s).len() == 0 {
        assert(trim_seq(trim_seq(s)) == trim_seq(s));
    } else {
        lemma_trim_result_ends(s);
        lemma_trim_of_trimmed(trim_seq(s));
    }
}

/// Trimming an all-whitespace prefix off a string that starts and ends with
/// non-whitespace yields that string.
pub proof fn lemma_trim_of_padded(pad: Seq<char>, x: Seq<char>, tail: Seq<char>)
    requires
        forall|j: int| 0 <= j < pad.len() ==> is_space(#[trigger] pad[j]),
        forall|j: int| 0 <= j < tail.len() ==> is_space(#[trigger] tail[j]),
        x.len() > 0,
        !is_space(x[0]),
        !is_space(x.last()),
    ensures
        trim_seq(pad + x + tail) == x,
{
    let s = pad + x + tail;
    assert(forall|j: int| 0 <= j < pad.len() ==> s[j] == pad[j]);
    assert(s[pad.len() as int] == x[0]);
    lemma_trim_start_skip(s, pad.len() as int);
    assert(trim_start_seq(s) =~= x + tail);
    let t = x + tail;
    assert(forall|j: int| x.len() <= j < t.len() ==> t[j] == tail[j - x.len()]);
    assert(t[x.len() - 1] == x.last());
    lemma_trim_end_take(t, x.len() as int);
    assert(t.take(x.len() as int) =~= x);
}

// --- facts about arrows and substrings ---

/// An arrow occurrence is just a `-` followed by a `>`.
pub proof fn lemma_arrow_occurs_chars(s: Seq<char>, j: int)
    ensures
        occurs_at(s, arrow(), j) <==> 0 <= j && j + 2 <= s.len() && s[j] == '-' && s[j + 1] == '>',
{
    if 0 <= j && j + 2 <= s.len() {
        if s[j] == '-' && s[j + 1] == '>' {
            assert(s.subrange(j, j + 2) =~= arrow());
        }
        if occurs_at(s, arrow(), j) {
            assert(s.subrange(j, j + 2)[0] == '-');
            assert(s.subrange(j, j + 2)[1] == '>');
        }
    }
}

/// A string with an arrow occurrence contains the arrow.
pub proof fn lemma_occurs_implies_contains(s: Seq<char>, j: int)
    requires
        occurs_at(s, arrow(), j),
    ensures
        contains_sub(s, arrow()),
{
    lemma_find_sub_props(s, arrow());
    if find_sub(s, arrow()) is None {
        assert(!occurs_at(s, arrow(), j));
    }
}

/// A contiguous stretch of an arrow-free string is arrow-free.
pub proof fn lemma_infix_arrow_free(x: Seq<char>, s: Seq<char>, a: int)
    requires
        0 <= a,
        a + x.len() <= s.len(),
        x == s.subrange(a, a + x.len()),
        !contains_sub(s, arrow()),
    ensures
        !contains_sub(x, arrow()),
{
    lemma_find_sub_props(x, arrow());
    if contains_sub(x, arrow()) {
        let j = find_sub(x, arrow()).unwrap();
        assert(occurs_at(x, arrow(), j));
        lemma_arrow_occurs_chars(x, j);
        assert(s[a + j] == x[j]);
        assert(s[a + j + 1] == x[j + 1]);
        lemma_arrow_occurs_chars(s, a + j);
        lemma_occurs_implies_contains(s, a + j);
    }
}

/// Every segment of an arrow split is arrow-free.
pub proof fn lemma_split_arrow_free(s: Seq<char>)
    ensures
        forall|i: int|
            0 <= i < split_arrows(s).len() ==> !contains_sub(#[trigger] split_arrows(s)[i], arrow()),
    decreases s.len(),
{
    lemma_find_sub_props(s, arrow());
    match find_sub(s, arrow()) {
        None => {
            assert(split_arrows(s) == seq![s]);
            assert(split_arrows(s)[0] == s);
        },
        Some(i) => {
            let head = s.take(i);
            lemma_find_sub_props(head, arrow());
            if contains_sub(head, arrow()) {
                let j = find_sub(head, arrow()).unwrap();
                assert(occurs_at(head, arrow(), j));
                lemma_arrow_occurs_chars(head, j);
                assert(head[j] == s[j] && head[j + 1] == s[j + 1]);
                lemma_arrow_occurs_chars(s, j);
                assert(!occurs_at(s, arrow(), j));
            }
            lemma_split_arrow_free(s.skip(i + 2));
            assert forall|k: int| 0 <= k < split_arrows(s).len() implies !contains_sub(
                #[trigger] split_arrows(s)[k],
                arrow(),
            ) by {
                if k == 0 {
                    assert(split_arrows(s)[0] == head);
                } else {
                    assert(split_arrows(s)[k] == split_arrows(s.skip(i + 2))[k - 1]);
                }
            }
        },
    }
}

// --- every parsed pair is well-formed ---

proof fn lemma_parse_step_wf(seg: Seq<char>, p: (Seq<char>, Seq<char>))
    requires
        parse_step_seq(trim_seq(seg)) == Ok::<(Seq<char>, Seq<char>), ParseError>(p),
        !contains_sub(seg, arrow()),
    ensures
        wf_pair(p),
{
    let t = trim_seq(seg);
    let i = find_char(t, ':').unwrap();
    lemma_find_char_props(t, ':');
    let provider = trim_seq(t.take(i));
    let action = trim_seq(t.skip(i + 1));
    lemma_trim_idempotent(t.take(i));
    lemma_trim_idempotent(t.skip(i + 1));
    // the provider holds no colon: it is a stretch of the part before the first colon
    let (pa, pb) = lemma_trim_is_infix(t.take(i));
    assert(forall|j: int| 0 <= j < provider.len() ==> provider[j] == t.take(i)[pa + j]);
    assert(forall|j: int| 0 <= j < provider.len() ==> provider[j] != ':');
    lemma_find_char_props(provider, ':');
    if find_char(provider, ':') is Some {
        let k = find_char(provider, ':').unwrap();
        assert(provider[k] == ':');
    }
    // neither half holds an arrow: both are stretches of the arrow-free segment
    let (a, b) = lemma_trim_is_infix(seg);
    assert(t == seg.subrange(a, b));
    assert(t.take(i) =~= seg.subrange(a, a + i));
    assert(t.skip(i + 1) =~= seg.subrange(a + i + 1, b));
    lemma_infix_arrow_free(t.take(i), seg, a);
    lemma_infix_arrow_free(t.skip(i + 1), seg, a + i + 1);
    let (ca, cb) = lemma_trim_is_infix(t.take(i));
    assert(provider =~= seg.subrange(a + ca, a + cb));
    lemma_infix_arrow_free(provider, seg, a + ca);
    let (da, db) = lemma_trim_is_infix(t.skip(i + 1));
    assert(action =~= seg.subrange(a + i + 1 + da, a + i + 1 + db));
    lemma_infix_arrow_free(action, seg, a + i + 1 + da);
}

proof fn lemma_parse_segments_wf(segs: Seq<Seq<char>>, pairs: Seq<(Seq<char>, Seq<char>)>)
    requires
        parse_segments(segs) == Ok::<Seq<(Seq<char>, Seq<char>)>, ParseError>(pairs),
        forall|i: int| 0 <= i < segs.len() ==> !contains_sub(#[trigger] segs[i], arrow()),
    ensures
        pairs.len() == segs.len(),
        forall|i: int| 0 <= i < pairs.len() ==> wf_pair(#[trigger] pairs[i]),
    decreases segs.len(),
{
    if segs.len() > 0 {
        let p = parse_step_seq(trim_seq(segs[0])).unwrap();
        lemma_parse_step_wf(segs[0], p);
        let rest = parse_segments(segs.skip(1)).unwrap();
        assert(forall|i: int|
            0 <= i < segs.skip(1).len() ==> !contains_sub(#[trigger] segs.skip(1)[i], arrow()));
        lemma_parse_segments_wf(segs.skip(1), rest);
        assert(pairs == seq![p] + rest);
        assert forall|i: int| 0 <= i < pairs.len() implies wf_pair(#[trigger] pairs[i]) by {
            if i == 0 {
                assert(pairs[0] == p);
            } else {
                assert(pairs[i] == rest[i - 1]);
            }
        }
    }
}

/// Everything `parse` returns is well-formed: at least one step, and every
/// step's provider and action trimmed, non-empty, and free of the tokens that
/// formatting writes.
pub proof fn lemma_parse_wf(input: Seq<char>, pairs: Seq<(Seq<char>, Seq<char>)>)
    requires
        parse_dsl(input) == Ok::<Seq<(Seq<char>, Seq<char>)>, ParseError>(pairs),
    ensures
        pairs.len() > 0,
        forall|i: int| 0 <= i < pairs.len() ==> wf_pair(#[trigger] pairs[i]),
{
    let t = trim_seq(input);
    lemma_split_arrow_free(t);
    lemma_parse_segments_wf(split_arrows(t), pairs);
    assert(split_arrows(t).len() > 0) by {
        match find_sub(t, arrow()) {
            None => {},
            Some(_) => {},
        }
    }
}

// --- formatting then parsing gives the steps back ---

/// `provider:action` holds no arrow when neither half does and the provider
/// holds no colon.
proof fn lemma_step_text_arrow_free(p: (Seq<char>, Seq<char>))
    requires
        wf_pair(p),
    ensures
        !contains_sub(step_text(p), arrow()),
        step_text(p).len() == p.0.len() + 1 + p.1.len(),
{
    let h = step_text(p);
    assert(forall|j: int| 0 <= j < p.0.len() ==> h[j] == p.0[j]);
    assert(h[p.0.len() as int] == ':');
    assert(forall|j: int| 0 <= j < p.1.len() ==> h[p.0.len() + 1 + j] == p.1[j]);
    lemma_find_sub_props(h, arrow());
    if contains_sub(h, arrow()) {
        let j = find_sub(h, arrow()).unwrap();
        lemma_arrow_occurs_chars(h, j);
        if j + 1 < p.0.len() {
            lemma_arrow_occurs_chars(p.0, j);
            lemma_occurs_implies_contains(p.0, j);
        } else if j >= p.0.len() + 1 {
            lemma_arrow_occurs_chars(p.1, j - p.0.len() - 1);
            lemma_occurs_implies_contains(p.1, j - p.0.len() - 1);
        }
    }
}

/// Parsing an all-whitespace padding followed by formatted steps yields the
/// steps back, segment by segment.
proof fn lemma_parse_format_padded(pad: Seq<char>, pairs: Seq<(Seq<char>, Seq<char>)>)
    requires
        pairs.len() > 0,
        forall|i: int| 0 <= i < pairs.len() ==> wf_pair(#[trigger] pairs[i]),
        forall|j: int| 0 <= j < pad.len() ==> is_space(#[trigger] pad[j]),
    ensures
        parse_segments(split_arrows(pad + format_steps(pairs))) == Ok::<
            Seq<(Seq<char>, Seq<char>)>,
            ParseError,
        >(pairs),
    decreases pairs.len(),
{
    let p = pairs[0];
    let h = step_text(p);
    lemma_step_text_arrow_free(p);
    lemma_trim_result_ends_of_wf(p);
    let s = pad + format_steps(pairs);
    if pairs.len() == 1 {
        assert(format_rest(pairs.skip(1)) == Seq::<char>::empty());
        assert(s =~= pad + h);
        // no arrow anywhere: the padding is whitespace and the step is clean
        assert forall|j: int| !occurs_at(s, arrow(), j) by {
            lemma_arrow_occurs_chars(s, j);
            if 0 <= j && j + 2 <= s.len() && s[j] == '-' && s[j + 1] == '>' {
                assert(j >= pad.len()) by {
                    if j < pad.len() {
                        assert(is_space(pad[j]));
                        assert(s[j] == pad[j]);
                        assert(!is_space('-'));
                    }
                }
                lemma_arrow_occurs_chars(h, j - pad.len());
                lemma_occurs_implies_contains(h, j - pad.len());
            }
        }
        lemma_find_sub_props(s, arrow());
        if find_sub(s, arrow()) is Some {
            let j = find_sub(s, arrow()).unwrap();
            assert(occurs_at(s, arrow(), j));
        }
        assert(split_arrows(s) == seq![s]);
        lemma_parse_one_padded_segment(pad, p, Seq::<char>::empty());
        assert(split_arrows(s)[0] == s);
        assert(s =~= pad + h + Seq::<char>::empty());
        assert(parse_segments(split_arrows(s).skip(1)) == Ok::<
            Seq<(Seq<char>, Seq<char>)>,
            ParseError,
        >(Seq::empty()));
        assert(seq![p] + Seq::<(Seq<char>, Seq<char>)>::empty() =~= pairs);
    } else {
        let tail_pairs = pairs.skip(1);
        assert(tail_pairs.len() > 0);
        assert(format_rest(tail_pairs) == fmt_sep() + step_text(tail_pairs[0]) + format_rest(
            tail_pairs.skip(1),
        ));
        assert(format_steps(tail_pairs) == step_text(tail_pairs[0]) + format_rest(
            tail_pairs.skip(1),
        ));
        assert(format_rest(tail_pairs) =~= fmt_sep() + format_steps(tail_pairs));
        assert(s =~= pad + h + (fmt_sep() + format_steps(tail_pairs)));
        // the first arrow sits inside the first separator
        let apos: int = pad.len() as int + h.len() as int + 1;
        assert(s[apos] == '-' && s[apos + 1] == '>');
        lemma_arrow_occurs_chars(s, apos as int);
        assert forall|j: int| 0 <= j < apos implies !occurs_at(s, arrow(), j) by {
            lemma_arrow_occurs_chars(s, j);
            if j + 2 <= s.len() && s[j] == '-' && s[j + 1] == '>' {
                if j < pad.len() {
                    assert(s[j] == pad[j]);
                    assert(is_space(pad[j]));
                    assert(!is_space('-'));
                } else if j + 1 < pad.len() + h.len() {
                    assert(s[j] == h[j - pad.len()]);
                    assert(s[j + 1] == h[j - pad.len() + 1]);
                    lemma_arrow_occurs_chars(h, j - pad.len());
                    lemma_occurs_implies_contains(h, j - pad.len());
                } else if j + 1 == pad.len() + h.len() {
                    assert(s[j + 1] == h[h.len() - 1]);
                    assert(h[h.len() - 1] == p.1.last());
                    assert(!is_space(p.1.last()));
                    assert(s[j + 1] == '>');
                    lemma_trim_result_ends_of_wf(p);
                } else {
                    assert(j == pad.len() + h.len());
                    assert(s[j] == ' ');
                }
            }
        }
        lemma_find_sub_at(s, arrow(), apos as int);
        assert(split_arrows(s) == seq![s.take(apos as int)] + split_arrows(
            s.skip(apos as int + 2),
        ));
        assert(s.take(apos as int) =~= pad + h + seq![' ']);
        assert(s.skip(apos as int + 2) =~= seq![' '] + format_steps(tail_pairs));
        assert(forall|i: int|
            0 <= i < tail_pairs.len() ==> wf_pair(#[trigger] tail_pairs[i]));
        lemma_parse_format_padded(seq![' '], tail_pairs);
        lemma_parse_one_padded_segment(pad, p, seq![' ']);
        let segs = split_arrows(s);
        assert(segs[0] == pad + h + seq![' ']);
        assert(segs.skip(1) =~= split_arrows(seq![' '] + format_steps(tail_pairs)));
        assert(parse_segments(segs) == Ok::<Seq<(Seq<char>, Seq<char>)>, ParseError>(
            seq![p] + tail_pairs,
        ));
        assert(seq![p] + tail_pairs =~= pairs);
    }
}

/// A well-formed pair's halves neither start nor end with whitespace.
proof fn lemma_trim_result_ends_of_wf(p: (Seq<char>, Seq<char>))
    requires
        wf_pair(p),
    ensures
        !is_space(p.0[0]),
        !is_space(p.0.last()),
        !is_space(p.1[0]),
        !is_space(p.1.last()),
{
    lemma_trim_result_ends_eq(p.0);
    lemma_trim_result_ends_eq(p.1);
}

proof fn lemma_trim_result_ends_eq(x: Seq<char>)
    requires
        x.len() > 0,
        trim_seq(x) == x,
    ensures
        !is_space(x[0]),
        !is_space(x.last()),
{
    lemma_trim_result_ends(x);
}

/// A whitespace-padded `provider:action` parses back to its pair.
proof fn lemma_parse_one_padded_segment(
    pad: Seq<char>,
    p: (Seq<char>, Seq<char>),
    tail: Seq<char>,
)
    requires
        wf_pair(p),
        forall|j: int| 0 <= j < pad.len() ==> is_space(#[trigger] pad[j]),
        forall|j: int| 0 <= j < tail.len() ==> is_space(#[trigger] tail[j]),
    ensures
        parse_step_seq(trim_seq(pad + step_text(p) + tail)) == Ok::<
            (Seq<char>, Seq<char>),
            ParseError,
        >(p),
{
    let h = step_text(p);
    lemma_trim_result_ends_of_wf(p);
    assert(h[0] == p.0[0]);
    assert(h[h.len() - 1] == p.1.last());
    lemma_trim_of_padded(pad, h, tail);
    assert(trim_seq(pad + h + tail) == h);
    // the first colon of `provider:action` is the one formatting wrote
    lemma_find_char_props(p.0, ':');
    assert(forall|j: int| 0 <= j < p.0.len() ==> h[j] == p.0[j] && h[j] != ':');
    assert(h[p.0.len() as int] == ':');
    lemma_find_char_at(h, ':', p.0.len() as int);
    assert(h.take(p.0.len() as int) =~= p.0);
    assert(h.skip(p.0.len() as int + 1) =~= p.1);
    lemma_trim_of_trimmed(p.0);
    lemma_trim_of_trimmed(p.1);
    lemma_trim_result_ends_eq(p.0);
    lemma_trim_result_ends_eq(p.1);
}

/// Formatting well-formed steps and parsing the result yields the same steps.
pub proof fn lemma_format_then_parse(pairs: Seq<(Seq<char>, Seq<char>)>)
    requires
        pairs.len() > 0,
        forall|i: int| 0 <= i < pairs.len() ==> wf_pair(#[trigger] pairs[i]),
    ensures
        parse_dsl(format_steps(pairs)) == Ok::<Seq<(Seq<char>, Seq<char>)>, ParseError>(pairs),
{
    let f = format_steps(pairs);
    lemma_format_ends(pairs);
    lemma_trim_of_padded(Seq::<char>::empty(), f, Seq::<char>::empty());
    assert(Seq::<char>::empty() + f + Seq::<char>::empty() =~= f);
    assert(trim_seq(f) == f);
    lemma_parse_format_padded(Seq::<char>::empty(), pairs);
    assert(Seq::<char>::empty() + f =~= f);
}

/// A formatted step list is non-empty and neither starts nor ends with
/// whitespace.
proof fn lemma_format_ends(pairs: Seq<(Seq<char>, Seq<char>)>)
    requires
        pairs.len() > 0,
        forall|i: int| 0 <= i < pairs.len() ==> wf_pair(#[trigger] pairs[i]),
    ensures
        format_steps(pairs).len() > 0,
        !is_space(format_steps(pairs)[0]),
        !is_space(format_steps(pairs).last()),
    decreases pairs.len(),
{
    let p = pairs[0];
    let h = step_text(p);
    lemma_trim_result_ends_of_wf(p);
    assert(format_steps(pairs)[0] == h[0]);
    assert(h[0] == p.0[0]);
    if pairs.len() == 1 {
        assert(format_rest(pairs.skip(1)) == Seq::<char>::empty());
        assert(format_steps(pairs) =~= h);
        assert(h.last() == p.1.last());
    } else {
        let tail_pairs = pairs.skip(1);
        assert(forall|i: int|
            0 <= i < tail_pairs.len() ==> wf_pair(#[trigger] tail_pairs[i]));
        lemma_format_ends(tail_pairs);
        assert(format_rest(tail_pairs) =~= fmt_sep() + format_steps(tail_pairs));
        let f = format_steps(pairs);
        let g = format_steps(tail_pairs);
        assert(f =~= h + fmt_sep() + g);
        assert(f.last() == g.last());
    }
}

/// The round trip: steps that came out of `parse` format to a string that
/// parses back to exactly those steps, provider and action pair for pair.
pub proof fn lemma_parse_format_roundtrip(input: Seq<char>, pairs: Seq<(Seq<char>, Seq<char>)>)
    requires
        parse_dsl(input) == Ok::<Seq<(Seq<char>, Seq<char>)>, ParseError>(pairs),
    ensures
        parse_dsl(format_steps(pairs)) == Ok::<Seq<(Seq<char>, Seq<char>)>, ParseError>(pairs),
{
    lemma_parse_wf(input, pairs);
    lemma_format_then_parse(pairs);
}

} // verus!
