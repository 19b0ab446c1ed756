//! The markdown viewer: scrolling, and the rendering of markdown text into
//! styled lines.
use vstd::prelude::*;
use crate::paths::{extension, path_extension};
use crate::text::{
    spells,
    char_rows, chars_of, count_leading_space, leading_space, lines_of, push_all, slice_chars,
    split_lines, string_of, trim, trim_end_cr, trim_start, trimmed, trimmed_end_cr,
    trimmed_start,
};

verus! {

/// Whether a run of text is drawn in the normal or the dimmed text colour.
#[derive(Clone, Copy, PartialEq, Eq, Structural, Debug)]
pub enum Tone {
    Normal,
    Dim,
}

/// The look of one span of rendered markdown.
#[derive(Clone, Copy, PartialEq, Eq, Structural, Debug)]
pub enum SpanStyle {
    /// Unstyled text (indentation, empty lines).
    Raw,
    /// Ordinary text.
    Plain(Tone),
    /// Text between `**` markers: bold.
    Strong(Tone),
    /// Text between `*` markers: italic.
    Emphasis(Tone),
    /// Text between backticks.
    InlineCode,
    /// A heading of the given level (1 to 6).
    Heading(usize),
    /// A list bullet or list number.
    Bullet,
    /// The bar in front of a block quote.
    QuoteBar,
    /// A line inside a fenced code block.
    CodeBlock,
}

impl SpanStyle {
    /// Whether this style is drawn in bold.
    pub fn is_bold(&self) -> (r: bool)
        ensures
            r == (self is Strong || self is InlineCode || self is Heading),
    {
        match self {
            SpanStyle::Strong(_) | SpanStyle::InlineCode | SpanStyle::Heading(_) => true,
            _ => false,
        }
    }
}

/// One span of a rendered line.
pub struct StyledSpan {
    pub text: String,
    pub style: SpanStyle,
}

/// The text and style of each span.
pub open spec fn span_views(v: Seq<StyledSpan>) -> Seq<(Seq<char>, SpanStyle)> {
    v.map_values(|s: StyledSpan| (s.text@, s.style))
}

/// The text and style of each span of each line.
pub open spec fn line_views(v: Seq<Vec<StyledSpan>>) -> Seq<Seq<(Seq<char>, SpanStyle)>> {
    v.map_values(|l: Vec<StyledSpan>| span_views(l@))
}

fn styled(cs: &[char], style: SpanStyle) -> (r: StyledSpan)
    ensures
        r.text@ == cs@,
        r.style == style,
{
    StyledSpan { text: string_of(cs), style }
}

fn push_span(spans: &mut Vec<StyledSpan>, cs: &[char], style: SpanStyle)
    ensures
        span_views(final(spans)@) == span_views(old(spans)@) + seq![(cs@, style)],
{
    let ghost before = spans@;
    spans.push(styled(cs, style));
    assert(span_views(spans@) =~= span_views(before) + seq![(cs@, style)]);
}

// ---------------------------------------------------------------------
// Inline markup
// ---------------------------------------------------------------------

/// Reads `s` up to the first `target`: the text before it, whether `target`
/// was found, and how many characters were consumed (the target included).
pub open spec fn until_char(s: Seq<char>, target: char) -> (Seq<char>, bool, nat)
    decreases s.len(),
{
    if s.len() == 0 {
        (seq![], false, 0)
    } else if s[0] == target {
        (seq![], true, 1)
    } else {
        let u = until_char(s.drop_first(), target);
        (seq![s[0]] + u.0, u.1, u.2 + 1)
    }
}

/// Reads `s` up to the first `**`: the text before it, whether `**` was
/// found, and how many characters were consumed (the marker included).
pub open spec fn until_double_star(s: Seq<char>) -> (Seq<char>, bool, nat)
    decreases s.len(),
{
    if s.len() == 0 {
        (seq![], false, 0)
    } else if s[0] == '*' && s.len() > 1 && s[1] == '*' {
        (seq![], true, 2)
    } else {
        let u = until_double_star(s.drop_first());
        (seq![s[0]] + u.0, u.1, u.2 + 1)
    }
}

/// Reading up to a character consumes no more than there is.
pub proof fn lemma_until_char_len(s: Seq<char>, target: char)
    ensures
        until_char(s, target).2 <= s.len(),
    decreases s.len(),
{
    if s.len() > 0 && s[0] != target {
        lemma_until_char_len(s.drop_first(), target);
    }
}

/// Reading up to `**` consumes no more than there is.
pub proof fn lemma_until_double_star_len(s: Seq<char>)
    ensures
        until_double_star(s).2 <= s.len(),
    decreases s.len(),
{
    if s.len() > 0 && !(s[0] == '*' && s.len() > 1 && s[1] == '*') {
        lemma_until_double_star_len(s.drop_first());
    }
}

/// The pending plain text `cur` as a span, if there is any.
pub open spec fn flush(cur: Seq<char>, tone: Tone) -> Seq<(Seq<char>, SpanStyle)> {
    if cur.len() > 0 {
        seq![(cur, SpanStyle::Plain(tone))]
    } else {
        seq![]
    }
}

/// The spans of inline markup `s`, where `cur` is plain text already read
/// and not yet emitted. Backticks delimit code, `**` bold and `*` italic
/// text; an opening marker without its closing one is kept as literal text.
pub open spec fn inline_from(s: Seq<char>, cur: Seq<char>, tone: Tone) -> Seq<
    (Seq<char>, SpanStyle),
>
    decreases s.len(),
{
    if s.len() == 0 {
        flush(cur, tone)
    } else {
        let c = s[0];
        let rest = s.drop_first();
        if c == '`' {
            let u = until_char(rest, '`');
            proof { lemma_until_char_len(rest, '`'); }
            if u.1 {
                flush(cur, tone) + seq![(u.0, SpanStyle::InlineCode)] + inline_from(
                    rest.skip(u.2 as int),
                    seq![],
                    tone,
                )
            } else {
                flush(cur, tone) + inline_from(rest.skip(u.2 as int), seq!['`'] + u.0, tone)
            }
        } else if c == '*' && rest.len() > 0 && rest[0] == '*' {
            let after = rest.drop_first();
            let u = until_double_star(after);
            proof { lemma_until_double_star_len(after); }
            if u.1 {
                flush(cur, tone) + seq![(u.0, SpanStyle::Strong(tone))] + inline_from(
                    after.skip(u.2 as int),
                    seq![],
                    tone,
                )
            } else {
                flush(cur, tone) + inline_from(after.skip(u.2 as int), seq!['*', '*'] + u.0, tone)
            }
        } else if c == '*' {
            let u = until_char(rest, '*');
            proof { lemma_until_char_len(rest, '*'); }
            if u.1 {
                flush(cur, tone) + seq![(u.0, SpanStyle::Emphasis(tone))] + inline_from(
                    rest.skip(u.2 as int),
                    seq![],
                    tone,
                )
            } else {
                flush(cur, tone) + inline_from(rest.skip(u.2 as int), seq!['*'] + u.0, tone)
            }
        } else {
            inline_from(rest, cur.push(c), tone)
        }
    }
}

/// The spans of the inline markup `s`.
pub open spec fn inline_spans(s: Seq<char>, tone: Tone) -> Seq<(Seq<char>, SpanStyle)> {
    inline_from(s, seq![], tone)
}

/// Whether `s` holds a character that can start inline markup.
pub open spec fn has_marker(s: Seq<char>) -> bool {
    exists|i: int| 0 <= i < s.len() && (#[trigger] s[i] == '`' || s[i] == '*')
}

proof fn lemma_plain_from(s: Seq<char>, cur: Seq<char>, tone: Tone)
    requires
        !has_marker(s),
    ensures
        inline_from(s, cur, tone) == flush(cur + s, tone),
    decreases s.len(),
{
    if s.len() == 0 {
        assert(cur + s =~= cur);
    } else {
        assert(s[0] != '`' && s[0] != '*');
        let rest = s.drop_first();
        assert(!has_marker(rest)) by {
            if has_marker(rest) {
                let i = choose|i: int| 0 <= i < rest.len() && (#[trigger] rest[i] == '`' || rest[i] == '*');
                assert(s[i + 1] == rest[i]);
            }
        }
        lemma_plain_from(rest, cur.push(s[0]), tone);
        assert(cur.push(s[0]) + rest =~= cur + s);
    }
}

/// Text without backticks or stars is rendered as it is: one plain span
/// holding all of it (none when it is empty).
pub proof fn lemma_plain_text_is_one_span(s: Seq<char>, tone: Tone)
    requires
        !has_marker(s),
    ensures
        inline_spans(s, tone) == (if s.len() > 0 {
            seq![(s, SpanStyle::Plain(tone))]
        } else {
            seq![]
        }),
{
    lemma_plain_from(s, seq![], tone);
    assert(Seq::<char>::empty() + s =~= s);
}

/// Reads `chars` from `start` up to the first `target`: the text before it,
/// whether it was found, and how many characters were consumed.
pub fn consume_until_char(chars: &[char], start: usize, target: char) -> (r: (Vec<char>, bool, usize))
    requires
        start <= chars@.len(),
    ensures
        r.0@ == until_char(chars@.skip(start as int), target).0,
        r.1 == until_char(chars@.skip(start as int), target).1,
        r.2 == until_char(chars@.skip(start as int), target).2,
        r.2 <= chars@.len() - start,
{
    let ghost whole = chars@.skip(start as int);
    let mut buf: Vec<char> = Vec::new();
    let mut i = start;
    assert(buf@ + until_char(chars@.skip(i as int), target).0 =~= until_char(whole, target).0);
    while i < chars.len()
        invariant
            start <= i <= chars@.len(),
            whole == chars@.skip(start as int),
            until_char(whole, target).0 == buf@ + until_char(chars@.skip(i as int), target).0,
            until_char(whole, target).1 == until_char(chars@.skip(i as int), target).1,
            until_char(whole, target).2 == (i - start) + until_char(chars@.skip(i as int), target).2,
        decreases chars@.len() - i,
    {
        let c = chars[i];
        assert(chars@.skip(i as int).drop_first() =~= chars@.skip(i + 1));
        if c == target {
            assert(buf@ + seq![] =~= buf@);
            return (buf, true, i + 1 - start);
        }
        let ghost before = buf@;
        buf.push(c);
        assert(before + (seq![c] + until_char(chars@.skip(i + 1), target).0) =~= buf@ + until_char(chars@.skip(i + 1), target).0);
        i = i + 1;
    }
    assert(buf@ + seq![] =~= buf@);
    (buf, false, i - start)
}

/// Reads `chars` from `start` up to the first `**`: the text before it,
/// whether it was found, and how many characters were consumed.
pub fn consume_until_double_star(chars: &[char], start: usize) -> (r: (Vec<char>, bool, usize))
    requires
        start <= chars@.len(),
    ensures
        r.0@ == until_double_star(chars@.skip(start as int)).0,
        r.1 == until_double_star(chars@.skip(start as int)).1,
        r.2 == until_double_star(chars@.skip(start as int)).2,
        r.2 <= chars@.len() - start,
{
    let ghost whole = chars@.skip(start as int);
    let mut buf: Vec<char> = Vec::new();
    let mut i = start;
    assert(buf@ + until_double_star(chars@.skip(i as int)).0 =~= until_double_star(whole).0);
    while i < chars.len()
        invariant
            start <= i <= chars@.len(),
            whole == chars@.skip(start as int),
            until_double_star(whole).0 == buf@ + until_double_star(chars@.skip(i as int)).0,
            until_double_star(whole).1 == until_double_star(chars@.skip(i as int)).1,
            until_double_star(whole).2 == (i - start) + until_double_star(chars@.skip(i as int)).2,
        decreases chars@.len() - i,
    {
        let c = chars[i];
        assert(chars@.skip(i as int).drop_first() =~= chars@.skip(i + 1));
        if c == '*' && i + 1 < chars.len() && chars[i + 1] == '*' {
            assert(buf@ + seq![] =~= buf@);
            return (buf, true, i + 2 - start);
        }
        let ghost before = buf@;
        buf.push(c);
        assert(before + (seq![c] + until_double_star(chars@.skip(i + 1)).0) =~= buf@ + until_double_star(chars@.skip(i + 1)).0);
        i = i + 1;
    }
    assert(buf@ + seq![] =~= buf@);
    (buf, false, i - start)
}

fn flush_into(spans: &mut Vec<StyledSpan>, cur: &mut Vec<char>, tone: Tone)
    ensures
        span_views(final(spans)@) == span_views(old(spans)@) + flush(old(cur)@, tone),
        final(cur)@ == Seq::<char>::empty(),
{
    if cur.len() > 0 {
        push_span(spans, cur.as_slice(), SpanStyle::Plain(tone));
    } else {
        assert(span_views(spans@) =~= span_views(spans@) + flush(cur@, tone));
    }
    *cur = Vec::new();
}

/// One step of inline rendering: the relation the loop of `render_inline`
/// keeps between what is emitted and what is left.
spec fn inline_kept(
    text: Seq<char>,
    tone: Tone,
    spans: Seq<StyledSpan>,
    i: int,
    cur: Seq<char>,
    spans0: Seq<StyledSpan>,
    i0: int,
    cur0: Seq<char>,
) -> bool {
    span_views(spans) + inline_from(text.skip(i), cur, tone) == span_views(spans0) + inline_from(
        text.skip(i0),
        cur0,
        tone,
    )
}

fn code_step(text: &[char], i: usize, spans: &mut Vec<StyledSpan>, current: &mut Vec<char>, tone: Tone) -> (next: usize)
    requires
        i < text@.len(),
        text@[i as int] == '`',
    ensures
        i < next <= text@.len(),
        inline_kept(text@, tone, final(spans)@, next as int, final(current)@, old(spans)@, i as int, old(current)@),
{
    let ghost s = text@.skip(i as int);
    let ghost cur0 = current@;
    let ghost sv0 = span_views(spans@);
    assert(i + 1 <= text.len());
    assert(s.drop_first() =~= text@.skip(i + 1));
    assert(s[0] == '`');
    flush_into(spans, current, tone);
    let (t, closed, n) = consume_until_char(text, i + 1, '`');
    if closed {
        push_span(spans, t.as_slice(), SpanStyle::InlineCode);
    } else {
        current.push('`');
        push_all(current, t.as_slice());
        assert(current@ =~= seq!['`'] + t@);
    }
    assert(text@.skip(i + 1).skip(n as int) =~= text@.skip(i + 1 + n));
    let next = i + 1 + n;
    proof {
        let u = until_char(s.drop_first(), '`');
        assert(s.drop_first().skip(u.2 as int) =~= text@.skip(next as int));
        if closed {
            assert(inline_from(s, cur0, tone) == flush(cur0, tone) + seq![(t@, SpanStyle::InlineCode)] + inline_from(text@.skip(next as int), seq![], tone));
        } else {
            assert(inline_from(s, cur0, tone) == flush(cur0, tone) + inline_from(text@.skip(next as int), seq!['`'] + t@, tone));
        }
        assert(span_views(spans@) + inline_from(text@.skip(next as int), current@, tone) =~= sv0 + inline_from(s, cur0, tone));
    }
    next
}

fn strong_step(text: &[char], i: usize, spans: &mut Vec<StyledSpan>, current: &mut Vec<char>, tone: Tone) -> (next: usize)
    requires
        i + 1 < text@.len(),
        text@[i as int] == '*',
        text@[i + 1] == '*',
    ensures
        i < next <= text@.len(),
        inline_kept(text@, tone, final(spans)@, next as int, final(current)@, old(spans)@, i as int, old(current)@),
{
    let ghost s = text@.skip(i as int);
    let ghost cur0 = current@;
    let ghost sv0 = span_views(spans@);
    assert(i + 2 <= text.len());
    assert(s.drop_first() =~= text@.skip(i + 1));
    assert(s.drop_first().drop_first() =~= text@.skip(i + 2));
    assert(s[0] == '*' && s.drop_first()[0] == '*');
    flush_into(spans, current, tone);
    let (t, closed, n) = consume_until_double_star(text, i + 2);
    if closed {
        push_span(spans, t.as_slice(), SpanStyle::Strong(tone));
    } else {
        current.push('*');
        current.push('*');
        push_all(current, t.as_slice());
        assert(current@ =~= seq!['*', '*'] + t@);
    }
    assert(text@.skip(i + 2).skip(n as int) =~= text@.skip(i + 2 + n));
    let next = i + 2 + n;
    proof {
        let u = until_double_star(s.drop_first().drop_first());
        assert(s.drop_first().drop_first().skip(u.2 as int) =~= text@.skip(next as int));
        if closed {
            assert(inline_from(s, cur0, tone) == flush(cur0, tone) + seq![(t@, SpanStyle::Strong(tone))] + inline_from(text@.skip(next as int), seq![], tone));
        } else {
            assert(inline_from(s, cur0, tone) == flush(cur0, tone) + inline_from(text@.skip(next as int), seq!['*', '*'] + t@, tone));
        }
        assert(span_views(spans@) + inline_from(text@.skip(next as int), current@, tone) =~= sv0 + inline_from(s, cur0, tone));
    }
    next
}

fn emphasis_step(text: &[char], i: usize, spans: &mut Vec<StyledSpan>, current: &mut Vec<char>, tone: Tone) -> (next: usize)
    requires
        i < text@.len(),
        text@[i as int] == '*',
        !(i + 1 < text@.len() && text@[i + 1] == '*'),
    ensures
        i < next <= text@.len(),
        inline_kept(text@, tone, final(spans)@, next as int, final(current)@, old(spans)@, i as int, old(current)@),
{
    let ghost s = text@.skip(i as int);
    let ghost cur0 = current@;
    let ghost sv0 = span_views(spans@);
    assert(i + 1 <= text.len());
    assert(s.drop_first() =~= text@.skip(i + 1));
    assert(s[0] == '*');
    assert(!(s.drop_first().len() > 0 && s.drop_first()[0] == '*'));
    flush_into(spans, current, tone);
    let (t, closed, n) = consume_until_char(text, i + 1, '*');
    if closed {
        push_span(spans, t.as_slice(), SpanStyle::Emphasis(tone));
    } else {
        current.push('*');
        push_all(current, t.as_slice());
        assert(current@ =~= seq!['*'] + t@);
    }
    assert(text@.skip(i + 1).skip(n as int) =~= text@.skip(i + 1 + n));
    let next = i + 1 + n;
    proof {
        let u = until_char(s.drop_first(), '*');
        assert(s.drop_first().skip(u.2 as int) =~= text@.skip(next as int));
        if closed {
            assert(inline_from(s, cur0, tone) == flush(cur0, tone) + seq![(t@, SpanStyle::Emphasis(tone))] + inline_from(text@.skip(next as int), seq![], tone));
        } else {
            assert(inline_from(s, cur0, tone) == flush(cur0, tone) + inline_from(text@.skip(next as int), seq!['*'] + t@, tone));
        }
        assert(span_views(spans@) + inline_from(text@.skip(next as int), current@, tone) =~= sv0 + inline_from(s, cur0, tone));
    }
    next
}

/// Splits inline markup into styled spans: backticks give code, `**` bold
/// and `*` italic text, in the base `tone`.
pub fn render_inline(text: &[char], tone: Tone) -> (r: Vec<StyledSpan>)
    ensures
        span_views(r@) == inline_spans(text@, tone),
{
    let mut spans: Vec<StyledSpan> = Vec::new();
    let mut current: Vec<char> = Vec::new();
    let mut i: usize = 0;
    assert(text@.skip(0) =~= text@);
    assert(span_views(spans@) + inline_from(text@, current@, tone) =~= inline_spans(text@, tone));
    while i < text.len()
        invariant
            i <= text@.len(),
            inline_spans(text@, tone) == span_views(spans@) + inline_from(text@.skip(i as int), current@, tone),
        decreases text@.len() - i,
    {
        let c = text[i];
        if c == '`' {
            i = code_step(text, i, &mut spans, &mut current, tone);
        } else if c == '*' && i + 1 < text.len() && text[i + 1] == '*' {
            i = strong_step(text, i, &mut spans, &mut current, tone);
        } else if c == '*' {
            i = emphasis_step(text, i, &mut spans, &mut current, tone);
        } else {
            let ghost s = text@.skip(i as int);
            assert(s.drop_first() =~= text@.skip(i + 1));
            current.push(c);
            i = i + 1;
        }
    }
    flush_into(&mut spans, &mut current, tone);
    spans
}

// ---------------------------------------------------------------------
// Block structure of one line
// ---------------------------------------------------------------------

/// The number of `'#'` characters `s` starts with.
pub open spec fn leading_hashes(s: Seq<char>) -> nat
    decreases s.len(),
{
    if s.len() > 0 && s[0] == '#' {
        1 + leading_hashes(s.drop_first())
    } else {
        0
    }
}

/// The heading level of a line body: the number of leading `'#'` (at most
/// six counted), when they are followed by a space; 0 when it is no heading.
pub open spec fn heading_level(body: Seq<char>) -> nat {
    let h = if leading_hashes(body) > 6 { 6 } else { leading_hashes(body) };
    if h > 0 && h < body.len() && body[h as int] == ' ' {
        h
    } else {
        0
    }
}

/// The position of the first `c` in `s`.
pub open spec fn first_index(s: Seq<char>, c: char) -> Option<nat>
    decreases s.len(),
{
    if s.len() == 0 {
        None
    } else if s[0] == c {
        Some(0)
    } else {
        match first_index(s.drop_first(), c) {
            Some(k) => Some(k + 1),
            None => None,
        }
    }
}

/// Whether every character of `s` is an ASCII digit.
pub open spec fn all_digits(s: Seq<char>) -> bool {
    forall|k: int| 0 <= k < s.len() ==> '0' <= #[trigger] s[k] <= '9'
}

/// The length of the list number `s` starts with (digits up to its first
/// `'.'`, the dot and one space), if it starts with one.
pub open spec fn numbered_len(s: Seq<char>) -> Option<nat> {
    match first_index(s, '.') {
        Some(d) => if d > 0 && all_digits(s.take(d as int)) && d + 1 < s.len() && s[d + 1 as int] == ' ' {
            Some(d + 2)
        } else {
            None
        },
        None => None,
    }
}

/// `s` starts with `a` followed by a space.
pub open spec fn marker(s: Seq<char>, a: char) -> bool {
    s.len() >= 2 && s[0] == a && s[1] == ' '
}

/// `s` is a horizontal rule: `---`, `***` or `___`.
pub open spec fn is_rule(s: Seq<char>) -> bool {
    s.len() == 3 && s[0] == s[1] && s[1] == s[2] && (s[0] == '-' || s[0] == '*' || s[0] == '_')
}

/// The text drawn for a horizontal rule.
pub open spec fn rule_text() -> Seq<char> {
    Seq::new(40, |i: int| '─')
}

/// The spans of one markdown line outside a code block. Leading white space
/// is kept as an unstyled span in front; the rest is a heading, a bullet
/// item, a numbered item, a quote, a horizontal rule or plain inline text.
pub open spec fn line_spans(line: Seq<char>) -> Seq<(Seq<char>, SpanStyle)> {
    let n = leading_space(line);
    let lead = line.take(n as int);
    let body = line.skip(n as int);
    let lead_span: Seq<(Seq<char>, SpanStyle)> = if n > 0 {
        seq![(lead, SpanStyle::Raw)]
    } else {
        seq![]
    };
    if body.len() == 0 {
        seq![(seq![], SpanStyle::Raw)]
    } else if heading_level(body) > 0 {
        lead_span + seq![(body, SpanStyle::Heading(heading_level(body) as usize))]
    } else if marker(body, '-') || marker(body, '*') || marker(body, '+') {
        lead_span + seq![(seq!['•', ' '], SpanStyle::Bullet)] + inline_spans(body.skip(2), Tone::Normal)
    } else if numbered_len(body) is Some {
        let k = numbered_len(body)->0;
        lead_span + seq![(body.take(k as int), SpanStyle::Bullet)] + inline_spans(
            body.skip(k as int),
            Tone::Normal,
        )
    } else if marker(body, '>') {
        lead_span + seq![(seq!['│', ' '], SpanStyle::QuoteBar)] + inline_spans(body.skip(2), Tone::Dim)
    } else if is_rule(body) {
        seq![(rule_text(), SpanStyle::Plain(Tone::Dim))]
    } else {
        lead_span + inline_spans(body, Tone::Normal)
    }
}

proof fn lemma_leading_hashes(s: Seq<char>, h: nat)
    requires
        h <= s.len(),
        forall|k: int| 0 <= k < h ==> s[k] == '#',
    ensures
        leading_hashes(s) >= h,
        (h == s.len() || s[h as int] != '#') ==> leading_hashes(s) == h,
    decreases h,
{
    if h > 0 {
        lemma_leading_hashes(s.drop_first(), (h - 1) as nat);
    }
}

/// The heading level of a line body (see `heading_level`).
fn heading_count(body: &[char]) -> (h: usize)
    ensures
        h == heading_level(body@),
{
    let mut h: usize = 0;
    while h < body.len() && h < 6 && body[h] == '#'
        invariant
            h <= 6,
            h <= body@.len(),
            forall|k: int| 0 <= k < h ==> body@[k] == '#',
        decreases 6 - h,
    {
        h = h + 1;
    }
    proof { lemma_leading_hashes(body@, h as nat); }
    if h > 0 && h < body.len() && body[h] == ' ' {
        h
    } else {
        0
    }
}

proof fn lemma_first_index(s: Seq<char>, c: char, d: nat)
    requires
        d <= s.len(),
        forall|k: int| 0 <= k < d ==> s[k] != c,
    ensures
        d < s.len() && s[d as int] == c ==> first_index(s, c) == Some(d),
        d == s.len() ==> first_index(s, c) is None,
    decreases d,
{
    if d > 0 {
        lemma_first_index(s.drop_first(), c, (d - 1) as nat);
    }
}

/// The length of the list number `body` starts with (see `numbered_len`).
fn numbered_prefix_len(body: &[char]) -> (r: Option<usize>)
    ensures
        r matches Some(k) ==> numbered_len(body@) == Some(k as nat),
        r is None ==> numbered_len(body@) is None,
{
    let mut d: usize = 0;
    while d < body.len() && body[d] != '.'
        invariant
            d <= body@.len(),
            forall|k: int| 0 <= k < d ==> body@[k] != '.',
        decreases body@.len() - d,
    {
        d = d + 1;
    }
    proof { lemma_first_index(body@, '.', d as nat); }
    if d == body.len() || d == 0 {
        return None;
    }
    let mut i: usize = 0;
    while i < d
        invariant
            i <= d < body@.len(),
            d > 0,
            first_index(body@, '.') == Some(d as nat),
            forall|k: int| 0 <= k < i ==> '0' <= #[trigger] body@[k] <= '9',
        decreases d - i,
    {
        if !('0' <= body[i] && body[i] <= '9') {
            assert(!all_digits(body@.take(d as int))) by {
                assert(body@.take(d as int)[i as int] == body@[i as int]);
            }
            return None;
        }
        i = i + 1;
    }
    assert(all_digits(body@.take(d as int))) by {
        assert forall|k: int| 0 <= k < d implies '0' <= #[trigger] body@.take(d as int)[k] <= '9' by {
            assert(body@.take(d as int)[k] == body@[k]);
        }
    }
    if d + 1 < body.len() && body[d + 1] == ' ' {
        Some(d + 2)
    } else {
        None
    }
}

/// The text after the list number `body` starts with, if it starts with one.
pub fn strip_numbered_prefix(body: &[char]) -> (r: Option<Vec<char>>)
    ensures
        r matches Some(a) ==> numbered_len(body@) is Some && a@ == body@.skip(
            numbered_len(body@)->0 as int,
        ),
        r is None ==> numbered_len(body@) is None,
{
    match numbered_prefix_len(body) {
        Some(k) => {
            let after = slice_chars(body, k, body.len());
            assert(after@ =~= body@.skip(k as int));
            Some(after)
        },
        None => None,
    }
}

/// The text drawn for a code fence, naming its language when there is one.
pub open spec fn fence_text(lang: Seq<char>) -> Seq<char> {
    if lang.len() == 0 {
        seq!['─', '─', '─', ' ', 'c', 'o', 'd', 'e']
    } else {
        seq!['─', '─', '─', ' '] + lang
    }
}

/// The text drawn for a code fence (see `fence_text`).
pub fn fence_glyph(lang: &[char]) -> (r: String)
    ensures
        r@ == fence_text(lang@),
{
    let mut out: Vec<char> = vec!['─', '─', '─', ' '];
    if lang.len() == 0 {
        out.push('c');
        out.push('o');
        out.push('d');
        out.push('e');
        assert(out@ =~= fence_text(lang@));
    } else {
        push_all(&mut out, lang);
        assert(out@ =~= fence_text(lang@));
    }
    string_of(out.as_slice())
}

fn lead_spans(lead: &[char]) -> (r: Vec<StyledSpan>)
    ensures
        span_views(r@) == (if lead@.len() > 0 {
            seq![(lead@, SpanStyle::Raw)]
        } else {
            seq![]
        }),
{
    let mut spans: Vec<StyledSpan> = Vec::new();
    if lead.len() > 0 {
        push_span(&mut spans, lead, SpanStyle::Raw);
    } else {
        assert(span_views(spans@) =~= seq![]);
    }
    spans
}

fn append_spans(spans: &mut Vec<StyledSpan>, more: Vec<StyledSpan>)
    ensures
        span_views(final(spans)@) == span_views(old(spans)@) + span_views(more@),
{
    let mut more = more;
    let ghost m = more@;
    let ghost s0 = spans@;
    let mut rev: Vec<StyledSpan> = Vec::new();
    while more.len() > 0
        invariant
            m == more@ + rev@.reverse(),
        decreases more@.len(),
    {
        let ghost before_more = more@;
        let ghost before_rev = rev@;
        let x = more.pop().unwrap();
        rev.push(x);
        assert(before_rev.push(x).reverse() =~= seq![x] + before_rev.reverse());
        assert(before_more =~= more@.push(x));
        assert(m =~= more@ + rev@.reverse());
    }
    while rev.len() > 0
        invariant
            m == spans@.subrange(s0.len() as int, spans@.len() as int) + rev@.reverse(),
            spans@.len() >= s0.len(),
            spans@.subrange(0, s0.len() as int) == s0,
        decreases rev@.len(),
    {
        let ghost before_rev = rev@;
        let ghost before_spans = spans@;
        let x = rev.pop().unwrap();
        spans.push(x);
        assert(before_rev =~= rev@.push(x));
        assert(rev@.push(x).reverse() =~= seq![x] + rev@.reverse());
        assert(spans@.subrange(s0.len() as int, spans@.len() as int) =~= before_spans.subrange(s0.len() as int, before_spans.len() as int).push(x));
        assert(spans@.subrange(0, s0.len() as int) =~= before_spans.subrange(0, s0.len() as int));
        assert(m =~= spans@.subrange(s0.len() as int, spans@.len() as int) + rev@.reverse());
    }
    assert(rev@.reverse() =~= Seq::<StyledSpan>::empty());
    assert(spans@ =~= s0 + m);
    assert(span_views(spans@) =~= span_views(s0) + span_views(m));
}

/// Renders one markdown line outside a code block (see `line_spans`).
pub fn render_line(line: &[char]) -> (r: Vec<StyledSpan>)
    ensures
        span_views(r@) == line_spans(line@),
{
    let n = count_leading_space(line);
    let lead = slice_chars(line, 0, n);
    let body = slice_chars(line, n, line.len());
    assert(lead@ =~= line@.take(n as int));
    assert(body@ =~= line@.skip(n as int));
    let mut spans = lead_spans(lead.as_slice());
    if body.len() == 0 {
        let empty: Vec<char> = Vec::new();
        let mut only: Vec<StyledSpan> = Vec::new();
        assert(span_views(only@) =~= Seq::<(Seq<char>, SpanStyle)>::empty());
        push_span(&mut only, empty.as_slice(), SpanStyle::Raw);
        assert(span_views(only@) =~= line_spans(line@));
        return only;
    }
    let h = heading_count(body.as_slice());
    if h > 0 {
        push_span(&mut spans, body.as_slice(), SpanStyle::Heading(h));
        return spans;
    }
    if body.len() >= 2 && (body[0] == '-' || body[0] == '*' || body[0] == '+') && body[1] == ' ' {
        push_span(&mut spans, &['•', ' '], SpanStyle::Bullet);
        let item = slice_chars(body.as_slice(), 2, body.len());
        assert(item@ =~= body@.skip(2));
        append_spans(&mut spans, render_inline(item.as_slice(), Tone::Normal));
        return spans;
    }
    if let Some(k) = numbered_prefix_len(body.as_slice()) {
        let prefix = slice_chars(body.as_slice(), 0, k);
        let after = slice_chars(body.as_slice(), k, body.len());
        assert(prefix@ =~= body@.take(k as int));
        assert(after@ =~= body@.skip(k as int));
        push_span(&mut spans, prefix.as_slice(), SpanStyle::Bullet);
        append_spans(&mut spans, render_inline(after.as_slice(), Tone::Normal));
        return spans;
    }
    if body.len() >= 2 && body[0] == '>' && body[1] == ' ' {
        push_span(&mut spans, &['│', ' '], SpanStyle::QuoteBar);
        let rest = slice_chars(body.as_slice(), 2, body.len());
        assert(rest@ =~= body@.skip(2));
        append_spans(&mut spans, render_inline(rest.as_slice(), Tone::Dim));
        return spans;
    }
    if body.len() == 3 && body[0] == body[1] && body[1] == body[2] && (body[0] == '-' || body[0]
        == '*' || body[0] == '_') {
        let mut rule: Vec<char> = Vec::new();
        let mut i: usize = 0;
        while i < 40
            invariant
                i <= 40,
                rule@ == Seq::new(i as nat, |j: int| '─'),
            decreases 40 - i,
        {
            rule.push('─');
            i = i + 1;
            assert(rule@ =~= Seq::new(i as nat, |j: int| '─'));
        }
        assert(rule@ =~= rule_text());
        let mut only: Vec<StyledSpan> = Vec::new();
        assert(span_views(only@) =~= Seq::<(Seq<char>, SpanStyle)>::empty());
        push_span(&mut only, rule.as_slice(), SpanStyle::Plain(Tone::Dim));
        assert(span_views(only@) =~= line_spans(line@));
        return only;
    }
    append_spans(&mut spans, render_inline(body.as_slice(), Tone::Normal));
    spans
}

// ---------------------------------------------------------------------
// Whole documents
// ---------------------------------------------------------------------

/// `t` opens or closes a fenced code block.
pub open spec fn is_fence(t: Seq<char>) -> bool {
    t.len() >= 3 && t[0] == '`' && t[1] == '`' && t[2] == '`'
}

/// The rendered lines for `lines`, where `in_code` tells whether a fenced
/// code block is open. A fence line becomes a marker naming the language;
/// lines inside a block are kept verbatim; other lines go through
/// `line_spans`. Trailing carriage returns are dropped first.
pub open spec fn render_from(lines: Seq<Seq<char>>, in_code: bool) -> Seq<
    Seq<(Seq<char>, SpanStyle)>,
>
    decreases lines.len(),
{
    if lines.len() == 0 {
        seq![]
    } else {
        let line = trim_end_cr(lines[0]);
        let t = trim_start(line);
        let rest = lines.drop_first();
        if is_fence(t) {
            if in_code {
                seq![seq![(fence_text(seq![]), SpanStyle::Plain(Tone::Dim))]] + render_from(rest, false)
            } else {
                seq![seq![(fence_text(trim(t.skip(3))), SpanStyle::Plain(Tone::Dim))]]
                    + render_from(rest, true)
            }
        } else if in_code {
            seq![seq![(line, SpanStyle::CodeBlock)]] + render_from(rest, true)
        } else {
            seq![line_spans(line)] + render_from(rest, false)
        }
    }
}

/// The rendered lines of the markdown document `content`.
pub open spec fn rendered(content: Seq<char>) -> Seq<Seq<(Seq<char>, SpanStyle)>> {
    render_from(lines_of(content), false)
}

fn single(cs: &[char], style: SpanStyle) -> (r: Vec<StyledSpan>)
    ensures
        span_views(r@) == seq![(cs@, style)],
{
    let mut v: Vec<StyledSpan> = Vec::new();
    assert(span_views(v@) =~= Seq::<(Seq<char>, SpanStyle)>::empty());
    push_span(&mut v, cs, style);
    assert(span_views(v@) =~= seq![(cs@, style)]);
    v
}

/// Renders a markdown document into styled lines, one per line of the
/// document (see `rendered`).
pub fn render(content: &str) -> (r: Vec<Vec<StyledSpan>>)
    ensures
        line_views(r@) == rendered(content@),
{
    let chars = chars_of(content);
    let lines = split_lines(chars.as_slice());
    let mut out: Vec<Vec<StyledSpan>> = Vec::new();
    let mut in_code = false;
    let mut i: usize = 0;
    assert(char_rows(lines@).skip(0) =~= char_rows(lines@));
    assert(line_views(out@) + render_from(char_rows(lines@), false) =~= rendered(content@));
    while i < lines.len()
        invariant
            i <= lines@.len(),
            rendered(content@) == line_views(out@) + render_from(char_rows(lines@).skip(i as int), in_code),
        decreases lines@.len() - i,
    {
        let ghost ls = char_rows(lines@).skip(i as int);
        let ghost ov = line_views(out@);
        let ghost code0 = in_code;
        assert(ls.drop_first() =~= char_rows(lines@).skip(i + 1));
        assert(ls[0] == lines@[i as int]@);
        let line = trimmed_end_cr(lines[i].as_slice());
        let t = trimmed_start(line.as_slice());
        let row: Vec<StyledSpan>;
        if t.len() >= 3 && t[0] == '`' && t[1] == '`' && t[2] == '`' {
            if in_code {
                in_code = false;
                let empty: Vec<char> = Vec::new();
                let g = chars_of(fence_glyph(empty.as_slice()).as_str());
                row = single(g.as_slice(), SpanStyle::Plain(Tone::Dim));
            } else {
                in_code = true;
                let after = slice_chars(t.as_slice(), 3, t.len());
                assert(after@ =~= t@.skip(3));
                let lang = trimmed(after.as_slice());
                let g = chars_of(fence_glyph(lang.as_slice()).as_str());
                row = single(g.as_slice(), SpanStyle::Plain(Tone::Dim));
            }
        } else if in_code {
            row = single(line.as_slice(), SpanStyle::CodeBlock);
        } else {
            row = render_line(line.as_slice());
        }
        let ghost rv = span_views(row@);
        out.push(row);
        assert(line_views(out@) =~= ov + seq![rv]);
        i = i + 1;
        assert(line_views(out@) + render_from(char_rows(lines@).skip(i as int), in_code) =~= ov + render_from(ls, code0));
    }
    out
}

proof fn lemma_leading_spaces(lead: Seq<char>, body: Seq<char>)
    requires
        forall|k: int| 0 <= k < lead.len() ==> lead[k] == ' ',
        body.len() > 0,
        !crate::text::is_space(body[0]),
    ensures
        leading_space(lead + body) == lead.len(),
    decreases lead.len(),
{
    if lead.len() > 0 {
        assert((lead + body).drop_first() =~= lead.drop_first() + body);
        lemma_leading_spaces(lead.drop_first(), body);
    } else {
        assert(lead + body =~= body);
    }
}

/// A list item is drawn with a bullet: a line of spaces `lead`, then `-`,
/// `*` or `+` and a space, renders as the indentation, the bullet `• ` and
/// the inline spans of the item's text; the three markers render alike.
pub proof fn lemma_bullet_items(lead: Seq<char>, m: char, item: Seq<char>)
    requires
        m == '-' || m == '*' || m == '+',
        forall|k: int| 0 <= k < lead.len() ==> lead[k] == ' ',
    ensures
        line_spans(lead + seq![m, ' '] + item) == (if lead.len() > 0 {
            seq![(lead, SpanStyle::Raw)]
        } else {
            seq![]
        }) + seq![(seq!['•', ' '], SpanStyle::Bullet)] + inline_spans(item, Tone::Normal),
{
    let body = seq![m, ' '] + item;
    let line = lead + body;
    assert(lead + seq![m, ' '] + item =~= line);
    lemma_leading_spaces(lead, body);
    assert(line.take(lead.len() as int) =~= lead);
    assert(line.skip(lead.len() as int) =~= body);
    assert(leading_hashes(body) == 0);
    assert(heading_level(body) == 0);
    assert(marker(body, m));
    assert(body.skip(2) =~= item);
}

proof fn lemma_not_numbered(s: Seq<char>)
    requires
        s.len() > 0,
        !('0' <= s[0] <= '9'),
    ensures
        numbered_len(s) is None,
{
    match first_index(s, '.') {
        Some(d) => {
            if d > 0 && d + 1 < s.len() {
                assert(s.take(d as int)[0] == s[0]);
            }
        },
        None => {},
    }
}

/// A heading is drawn whole in the heading style of its level: one to six
/// `#`, a space and its text give one span, the line itself, styled as a
/// heading of that level.
pub proof fn lemma_heading_line(h: nat, text: Seq<char>)
    requires
        1 <= h <= 6,
    ensures
        line_spans(Seq::new(h, |i: int| '#') + seq![' '] + text) == seq![
            (Seq::new(h, |i: int| '#') + seq![' '] + text, SpanStyle::Heading(h as usize)),
        ],
{
    let line = Seq::new(h, |i: int| '#') + seq![' '] + text;
    assert(line[0] == '#');
    assert(leading_space(line) == 0);
    assert(line.take(0) =~= Seq::<char>::empty());
    assert(line.skip(0) =~= line);
    lemma_leading_hashes(line, h);
    assert(line[h as int] == ' ');
    assert(heading_level(line) == h);
}

/// A quote is drawn behind a bar, its text dimmed: `> ` and a text give the
/// bar `│ ` and the inline spans of the text in the dimmed tone.
pub proof fn lemma_quote_line(text: Seq<char>)
    ensures
        line_spans(seq!['>', ' '] + text) == seq![(seq!['│', ' '], SpanStyle::QuoteBar)] + inline_spans(
            text,
            Tone::Dim,
        ),
{
    let line = seq!['>', ' '] + text;
    assert(leading_space(line) == 0);
    assert(line.take(0) =~= Seq::<char>::empty());
    assert(line.skip(0) =~= line);
    assert(leading_hashes(line) == 0);
    lemma_not_numbered(line);
    assert(line.skip(2) =~= text);
}

/// A numbered item keeps its number: digits, a dot and a space give that
/// prefix as a bullet span, then the inline spans of the item's text.
pub proof fn lemma_numbered_line(digits: Seq<char>, text: Seq<char>)
    requires
        digits.len() > 0,
        forall|k: int| 0 <= k < digits.len() ==> '0' <= #[trigger] digits[k] <= '9',
    ensures
        line_spans(digits + seq!['.', ' '] + text) == seq![
            (digits + seq!['.', ' '], SpanStyle::Bullet),
        ] + inline_spans(text, Tone::Normal),
{
    let line = digits + seq!['.', ' '] + text;
    assert(line[0] == digits[0]);
    assert(leading_space(line) == 0);
    assert(line.take(0) =~= Seq::<char>::empty());
    assert(line.skip(0) =~= line);
    assert(leading_hashes(line) == 0);
    assert(!marker(line, '-') && !marker(line, '*') && !marker(line, '+'));
    lemma_first_index(line, '.', digits.len());
    assert(line.take(digits.len() as int) =~= digits);
    assert(numbered_len(line) == Some(digits.len() + 2));
    assert(line.take(digits.len() + 2int) =~= digits + seq!['.', ' ']);
    assert(line.skip(digits.len() + 2int) =~= text);
}

/// A horizontal rule, `---`, `***` or `___`, is drawn as forty dimmed `─`.
pub proof fn lemma_rule_line(c: char)
    requires
        c == '-' || c == '*' || c == '_',
    ensures
        line_spans(seq![c, c, c]) == seq![(Seq::new(40, |i: int| '─'), SpanStyle::Plain(Tone::Dim))],
{
    let line = seq![c, c, c];
    assert(leading_space(line) == 0);
    assert(line.take(0) =~= Seq::<char>::empty());
    assert(line.skip(0) =~= line);
    assert(leading_hashes(line) == 0);
    lemma_not_numbered(line);
}

proof fn lemma_until_char_found(code: Seq<char>, target: char, rest: Seq<char>)
    requires
        forall|k: int| 0 <= k < code.len() ==> #[trigger] code[k] != target,
    ensures
        until_char(code + seq![target] + rest, target) == (code, true, code.len() + 1),
    decreases code.len(),
{
    let s = code + seq![target] + rest;
    if code.len() == 0 {
        assert(s[0] == target);
        assert(code =~= Seq::<char>::empty());
    } else {
        assert(s.drop_first() =~= code.drop_first() + seq![target] + rest);
        lemma_until_char_found(code.drop_first(), target, rest);
        assert(seq![code[0]] + code.drop_first() =~= code);
    }
}

proof fn lemma_until_double_star_found(t: Seq<char>, rest: Seq<char>)
    requires
        forall|k: int| 0 <= k < t.len() ==> #[trigger] t[k] != '*',
    ensures
        until_double_star(t + seq!['*', '*'] + rest) == (t, true, t.len() + 2),
    decreases t.len(),
{
    let s = t + seq!['*', '*'] + rest;
    if t.len() == 0 {
        assert(s[0] == '*' && s[1] == '*');
        assert(t =~= Seq::<char>::empty());
    } else {
        assert(s.drop_first() =~= t.drop_first() + seq!['*', '*'] + rest);
        lemma_until_double_star_found(t.drop_first(), rest);
        assert(seq![t[0]] + t.drop_first() =~= t);
    }
}

/// Inline markup: text between backticks becomes a code span, text between
/// `**` a bold span and text between single `*` an italic span; what follows
/// the closing marker is rendered on its own.
pub proof fn lemma_inline_markup(t: Seq<char>, rest: Seq<char>, tone: Tone)
    ensures
        (forall|k: int| 0 <= k < t.len() ==> #[trigger] t[k] != '`') ==> inline_spans(
            seq!['`'] + t + seq!['`'] + rest,
            tone,
        ) == seq![(t, SpanStyle::InlineCode)] + inline_spans(rest, tone),
        (forall|k: int| 0 <= k < t.len() ==> #[trigger] t[k] != '*') ==> inline_spans(
            seq!['*', '*'] + t + seq!['*', '*'] + rest,
            tone,
        ) == seq![(t, SpanStyle::Strong(tone))] + inline_spans(rest, tone),
        (t.len() > 0 && forall|k: int| 0 <= k < t.len() ==> #[trigger] t[k] != '*') ==> inline_spans(
            seq!['*'] + t + seq!['*'] + rest,
            tone,
        ) == seq![(t, SpanStyle::Emphasis(tone))] + inline_spans(rest, tone),
{
    let e: Seq<char> = seq![];
    assert(flush(e, tone) =~= Seq::<(Seq<char>, SpanStyle)>::empty());
    if forall|k: int| 0 <= k < t.len() ==> #[trigger] t[k] != '`' {
        let s = seq!['`'] + t + seq!['`'] + rest;
        assert(s.drop_first() =~= t + seq!['`'] + rest);
        lemma_until_char_found(t, '`', rest);
        assert((t + seq!['`'] + rest).skip(t.len() + 1int) =~= rest);
    }
    if forall|k: int| 0 <= k < t.len() ==> #[trigger] t[k] != '*' {
        let s = seq!['*', '*'] + t + seq!['*', '*'] + rest;
        assert(s.drop_first().drop_first() =~= t + seq!['*', '*'] + rest);
        lemma_until_double_star_found(t, rest);
        assert((t + seq!['*', '*'] + rest).skip(t.len() + 2int) =~= rest);
    }
    if t.len() > 0 && forall|k: int| 0 <= k < t.len() ==> #[trigger] t[k] != '*' {
        let s = seq!['*'] + t + seq!['*'] + rest;
        assert(s.drop_first() =~= t + seq!['*'] + rest);
        assert(s.drop_first()[0] == t[0]);
        lemma_until_char_found(t, '*', rest);
        assert((t + seq!['*'] + rest).skip(t.len() + 1int) =~= rest);
    }
}

/// Rendering keeps the line structure: the document's `k`-th line gives the
/// `k`-th rendered line, so there are as many rendered lines as lines.
pub proof fn lemma_render_keeps_line_count(lines: Seq<Seq<char>>, in_code: bool)
    ensures
        render_from(lines, in_code).len() == lines.len(),
    decreases lines.len(),
{
    if lines.len() > 0 {
        lemma_render_keeps_line_count(lines.drop_first(), true);
        lemma_render_keeps_line_count(lines.drop_first(), false);
    }
}

// ---------------------------------------------------------------------
// The viewer
// ---------------------------------------------------------------------

/// A markdown file opened read-only in the right panel, with the first line
/// shown at `scroll`.
pub struct MdViewer {
    pub path: String,
    pub content: String,
    pub scroll: u16,
}

/// The number of lines the viewer counts for `content`: its lines, and at
/// least one.
pub open spec fn line_total(content: Seq<char>) -> nat {
    if lines_of(content).len() == 0 {
        1
    } else {
        lines_of(content).len()
    }
}

/// The largest scroll position: the last line, as far as `u16` reaches.
pub open spec fn max_scroll(content: Seq<char>) -> u16 {
    if line_total(content) - 1 > u16::MAX {
        u16::MAX
    } else {
        (line_total(content) - 1) as u16
    }
}

impl MdViewer {
    /// The number of lines of the document, at least one.
    pub fn line_count(&self) -> (r: usize)
        ensures
            r == line_total(self.content@),
    {
        let chars = chars_of(self.content.as_str());
        let lines = split_lines(chars.as_slice());
        assert(char_rows(lines@).len() == lines@.len());
        if lines.len() == 0 {
            1
        } else {
            lines.len()
        }
    }

    fn last_line(&self) -> (r: u16)
        ensures
            r == max_scroll(self.content@),
    {
        let n = self.line_count();
        if n - 1 > 65535 {
            65535
        } else {
            (n - 1) as u16
        }
    }

    /// Scrolls `n` lines down, stopping at the last line.
    pub fn scroll_down(&mut self, n: u16)
        ensures
            final(self).path == old(self).path,
            final(self).content == old(self).content,
            final(self).scroll == (if old(self).scroll + n > max_scroll(old(self).content@) {
                max_scroll(old(self).content@)
            } else {
                (old(self).scroll + n) as u16
            }),
    {
        let max = self.last_line();
        let sum = self.scroll.saturating_add(n);
        self.scroll = if sum < max { sum } else { max };
    }

    /// Scrolls `n` lines up, stopping at the first line.
    pub fn scroll_up(&mut self, n: u16)
        ensures
            final(self).path == old(self).path,
            final(self).content == old(self).content,
            final(self).scroll == (if old(self).scroll >= n {
                (old(self).scroll - n) as u16
            } else {
                0
            }),
    {
        self.scroll = self.scroll.saturating_sub(n);
    }

    /// Scrolls to the first line.
    pub fn scroll_top(&mut self)
        ensures
            final(self).path == old(self).path,
            final(self).content == old(self).content,
            final(self).scroll == 0,
    {
        self.scroll = 0;
    }

    /// Scrolls to the last line.
    pub fn scroll_bottom(&mut self)
        ensures
            final(self).path == old(self).path,
            final(self).content == old(self).content,
            final(self).scroll == max_scroll(old(self).content@),
    {
        self.scroll = self.last_line();
    }
}

/// The ASCII lower-case form of `c` (`char::to_ascii_lowercase`).
pub open spec fn ascii_lower(c: char) -> char {
    if 'A' <= c <= 'Z' {
        ((c as u32) + 32) as char
    } else {
        c
    }
}

/// Whether an extension marks a markdown file: `md`, `markdown`, `mdown`
/// or `mkd`, in any ASCII case.
pub open spec fn markdown_extension(ext: Seq<char>) -> bool {
    let l = ext.map_values(|c: char| ascii_lower(c));
    l == "md"@ || l == "markdown"@ || l == "mdown"@ || l == "mkd"@
}

/// True if the path's extension marks it as markdown.
pub fn is_markdown(path: &str) -> (r: bool)
    ensures
        r == (path_extension(path@) matches Some(e) && markdown_extension(e)),
{
    match extension(path) {
        None => false,
        Some(ext) => {
            let cs = chars_of(ext.as_str());
            let mut low: Vec<char> = Vec::new();
            let mut i: usize = 0;
            while i < cs.len()
                invariant
                    i <= cs@.len(),
                    low@ == cs@.take(i as int).map_values(|c: char| ascii_lower(c)),
                decreases cs@.len() - i,
            {
                let c = cs[i];
                let l = if 'A' <= c && c <= 'Z' {
                    ((c as u8) + 32) as char
                } else {
                    c
                };
                low.push(l);
                i = i + 1;
                assert(low@ =~= cs@.take(i as int).map_values(|c: char| ascii_lower(c)));
            }
            assert(cs@.take(cs@.len() as int) =~= cs@);
            spells(low.as_slice(), "md") || spells(low.as_slice(), "markdown") || spells(
                low.as_slice(),
                "mdown",
            ) || spells(low.as_slice(), "mkd")
        },
    }
}

} // verus!
