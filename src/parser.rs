use vstd::prelude::*;

use crate::document::{HtmlBody, HtmlDocument, HtmlHead};
use crate::element::{lemma_render_all_push, render_all, 
    lemma_items_of_push, lemma_nodes_of_append, lemma_nodes_of_push, node_of, nodes_of, Bold,
    BulletList, Cursive, Element, Heading, HeadingType, HorizontalRule, Image, Link, Monospace,
    NewLine, Node, NumberedList, Paragraph, Text, items_of,
};
use crate::push_char;

verus! {

/// Whether the character at `p` exists and is `c`.
pub open spec fn at(s: Seq<char>, p: int, c: char) -> bool {
    0 <= p < s.len() && s[p] == c
}

/// The position after consuming one character, if any is left.
pub open spec fn adv(s: Seq<char>, p: int) -> int {
    if p < s.len() {
        p + 1
    } else {
        p
    }
}

/// Scanning never moves backwards; this keeps each rule's termination evident.
pub open spec fn forward(q: int, p: int) -> int {
    if q < p {
        p
    } else {
        q
    }
}

/// How many characters are left from `p` on.
pub open spec fn left(s: Seq<char>, p: int) -> int {
    if p < s.len() {
        s.len() - p
    } else {
        0
    }
}

/// The characters that end a paragraph's inline content.
pub open spec fn paragraph_breaks() -> Seq<char> {
    seq!['{', '\n', '[']
}

/// Characters up to the first `d` (consumed, not kept) or the end of input.
pub open spec fn text_until(s: Seq<char>, p: int, d: char, acc: Seq<char>) -> (Seq<char>, int)
    decreases left(s, p),
{
    if p >= s.len() {
        (acc, p)
    } else if s[p] == d {
        (acc, p + 1)
    } else {
        text_until(s, p + 1, d, acc.push(s[p]))
    }
}

/// A link's destination: characters up to the pair `<<` (consumed) or the end of input.
pub open spec fn link_target(s: Seq<char>, p: int, acc: Seq<char>) -> (Seq<char>, int)
    decreases left(s, p),
{
    if p >= s.len() {
        (acc, p)
    } else if s[p] == '<' && at(s, p + 1, '<') {
        (acc, p + 2)
    } else {
        link_target(s, p + 1, acc.push(s[p]))
    }
}

/// `name~href<<`, after the opening `>>`.
pub open spec fn link(s: Seq<char>, p: int) -> (Node, int) {
    let (name, q) = text_until(s, p, '~', seq![]);
    let (href, r) = link_target(s, q, seq![]);
    (Node::Link(name, href), r)
}

/// `alt~src@`, after the opening `@`.
pub open spec fn image(s: Seq<char>, p: int) -> (Node, int) {
    let (alt, q) = text_until(s, p, '~', seq![]);
    let (src, r) = text_until(s, q, '@', seq![]);
    (Node::Image(alt, src), r)
}

/// The number of consecutive heading markers from `p` on.
pub open spec fn marker_run(s: Seq<char>, p: int) -> nat
    decreases left(s, p),
{
    if at(s, p, '°') {
        1 + marker_run(s, p + 1)
    } else {
        0
    }
}

/// A heading level from a count of markers: at most six.
pub open spec fn clamp_level(k: nat) -> nat {
    if k > 6 {
        6
    } else {
        k
    }
}

/// A heading after its first marker: the rest of the marker run, then the text of the line.
pub open spec fn heading(s: Seq<char>, p: int) -> (Node, int) {
    let run = marker_run(s, p);
    let (text, q) = text_until(s, p + run, '\n', seq![]);
    (Node::Heading(clamp_level(1 + run), text), q)
}

/// The node that a pair of formatting delimiters makes of its content.
pub open spec fn wrap(c: char, content: Seq<Node>) -> Node {
    if c == '*' {
        Node::Bold(content)
    } else if c == '_' {
        Node::Cursive(content)
    } else {
        Node::Monospace(content)
    }
}

pub open spec fn is_format_delimiter(c: char) -> bool {
    c == '*' || c == '_' || c == '\''
}

/// Whether inline scanning stops at `p`: end of input, a terminator, or a heading marker.
pub open spec fn inline_stops(s: Seq<char>, p: int, until: Seq<char>) -> bool {
    p >= s.len() || until.contains(s[p]) || s[p] == '°'
}

/// Inline content from `p` up to a stop (not consumed). `elems` holds the nodes made so far
/// and `text` the pending literal text; the result is the finished node sequence and the
/// position where scanning stopped.
pub open spec fn inline(
    s: Seq<char>,
    p: int,
    until: Seq<char>,
    elems: Seq<Node>,
    text: Seq<char>,
) -> (Seq<Node>, int)
    decreases left(s, p), 0int,
{
    if inline_stops(s, p, until) {
        (elems.push(Node::Text(text)), p)
    } else {
        let c = s[p];
        let flushed = elems.push(Node::Text(text));
        if c == '>' {
            if at(s, p + 1, '>') {
                let (l, q) = link(s, p + 2);
                inline(s, forward(q, p + 2), until, flushed.push(l), seq![])
            } else {
                inline(s, p + 1, until, flushed, seq!['>'])
            }
        } else if c == '@' {
            let (img, q) = image(s, p + 1);
            inline(s, forward(q, p + 1), until, flushed.push(img), seq![])
        } else if is_format_delimiter(c) {
            let (content, q) = inline(s, p + 1, seq![c], seq![], seq![]);
            inline(s, forward(adv(s, q), p + 1), until, flushed.push(wrap(c, content)), seq![])
        } else if c == '|' {
            if at(s, p + 1, '-') {
                inline(s, p + 2, until, flushed.push(Node::HorizontalRule), seq![])
            } else {
                inline(s, p + 1, until, elems, text.push('|'))
            }
        } else if c == '\n' {
            // A list right after a line break is a bullet list, whichever its delimiter.
            if at(s, p + 1, '{') {
                let (items, q) = list(s, p + 2, '{', '}', seq![]);
                inline(s, forward(q, p + 2), until, flushed.push(Node::BulletList(items)), seq![])
            } else if at(s, p + 1, '[') {
                let (items, q) = list(s, p + 2, '[', ']', seq![]);
                inline(s, forward(q, p + 2), until, flushed.push(Node::BulletList(items)), seq![])
            } else if p + 1 >= s.len() || s[p + 1] == '°' {
                inline(s, p + 1, until, flushed, seq![])
            } else {
                inline(s, p + 1, until, flushed.push(Node::NewLine), seq![])
            }
        } else if c == '\\' {
            if p + 1 < s.len() {
                inline(s, p + 2, until, elems, text.push(s[p + 1]))
            } else {
                inline(s, p + 1, until, elems, text.push('\\'))
            }
        } else {
            inline(s, p + 1, until, elems, text.push(c))
        }
    }
}

/// List items after an opening delimiter `b`: each is inline content closed by `e`; the list
/// goes on while a newline and `b` follow the closing delimiter.
pub open spec fn list(s: Seq<char>, p: int, b: char, e: char, items: Seq<Seq<Node>>) -> (
    Seq<Seq<Node>>,
    int,
)
    decreases left(s, p), 1int,
{
    let (item, q) = inline(s, p, seq![e], seq![], seq![]);
    let items = items.push(item);
    let q = adv(s, forward(q, p));
    if at(s, q, '\n') && at(s, q + 1, b) {
        list(s, q + 2, b, e, items)
    } else if at(s, q, '\n') {
        (items, q + 1)
    } else {
        (items, q)
    }
}

/// The rest of a paragraph at `p`: a single newline not followed by a break keeps the
/// paragraph open with a line break; a blank line, or a list opening, closes it.
pub open spec fn paragraph_rest(s: Seq<char>, p: int, content: Seq<Node>) -> (Seq<Node>, int)
    decreases left(s, p),
{
    if !at(s, p, '\n') {
        (content, p)
    } else if at(s, p + 1, '\n') {
        (content, p + 2)
    } else if at(s, p + 1, '{') || at(s, p + 1, '[') {
        (content, p + 1)
    } else {
        let (more, q) = inline(s, p + 1, paragraph_breaks(), seq![], seq![]);
        paragraph_rest(s, forward(q, p + 1), content.push(Node::NewLine) + more)
    }
}

pub open spec fn paragraph(s: Seq<char>, p: int) -> (Node, int) {
    let (first, q) = inline(s, p, paragraph_breaks(), seq![], seq![]);
    let (content, r) = paragraph_rest(s, forward(q, p), first);
    (Node::Paragraph(content), r)
}

/// The top-level elements from `p` on, after those already in `elems`.
pub open spec fn top_level(s: Seq<char>, p: int, elems: Seq<Node>) -> Seq<Node>
    decreases left(s, p),
{
    if p >= s.len() {
        elems
    } else if s[p] == '°' {
        let (h, q) = heading(s, p + 1);
        top_level(s, forward(q, p + 1), elems.push(h))
    } else if s[p] == '{' {
        let (items, q) = list(s, p + 1, '{', '}', seq![]);
        top_level(s, forward(q, p + 1), elems.push(Node::BulletList(items)))
    } else if s[p] == '[' {
        let (items, q) = list(s, p + 1, '[', ']', seq![]);
        top_level(s, forward(q, p + 1), elems.push(Node::NumberedList(items)))
    } else if s[p] == '@' {
        let (img, q) = image(s, p + 1);
        top_level(s, forward(q, p + 1), elems.push(img))
    } else {
        let (para, q) = paragraph(s, p);
        top_level(s, forward(q, p + 1), elems.push(para))
    }
}

/// The body's elements for a whole input text.
pub open spec fn parse_body(s: Seq<char>) -> Seq<Node> {
    top_level(s, 0, seq![])
}

/// A character with no markup meaning anywhere in a line of text.
pub open spec fn is_plain_char(c: char) -> bool {
    !(c == '°' || c == '{' || c == '}' || c == '[' || c == ']' || c == '@' || c == '*' || c
        == '_' || c == '\'' || c == '|' || c == '>' || c == '\\' || c == '\n')
}

pub open spec fn is_plain(t: Seq<char>) -> bool {
    forall|i: int| 0 <= i < t.len() ==> is_plain_char(#[trigger] t[i])
}

/// No character of `until` is plain.
pub open spec fn stops_only_on_markup(until: Seq<char>) -> bool {
    forall|c: char| until.contains(c) ==> !is_plain_char(c)
}

proof fn lemma_breaks_stop_only_on_markup()
    ensures
        stops_only_on_markup(paragraph_breaks()),
        stops_only_on_markup(seq!['}']),
        stops_only_on_markup(seq![']']),
{
    assert forall|c: char| paragraph_breaks().contains(c) implies !is_plain_char(c) by {
        let j = choose|j: int| 0 <= j < 3 && paragraph_breaks()[j] == c;
        assert(j == 0 || j == 1 || j == 2);
    }
    assert forall|c: char| seq!['}'].contains(c) implies !is_plain_char(c) by {
        assert(seq!['}'][0] == c);
    }
    assert forall|c: char| seq![']'].contains(c) implies !is_plain_char(c) by {
        assert(seq![']'][0] == c);
    }
}

/// A run of plain characters from `p` to `m` becomes one text node; scanning stops at `m`.
proof fn lemma_inline_plain(
    s: Seq<char>,
    p: int,
    m: int,
    until: Seq<char>,
    elems: Seq<Node>,
    text: Seq<char>,
)
    requires
        0 <= p <= m <= s.len(),
        forall|i: int| p <= i < m ==> is_plain_char(#[trigger] s[i]),
        m == s.len() || until.contains(s[m]),
        stops_only_on_markup(until),
    ensures
        inline(s, p, until, elems, text) == (elems.push(Node::Text(text + s.subrange(p, m))), m),
    decreases m - p,
{
    if p == m {
        assert(text + s.subrange(p, m) =~= text);
    } else {
        let c = s[p];
        assert(is_plain_char(c));
        lemma_inline_plain(s, p + 1, m, until, elems, text.push(c));
        assert(text.push(c) + s.subrange(p + 1, m) =~= text + s.subrange(p, m));
    }
}

/// Nonempty text without markup characters or newlines parses to a single paragraph holding
/// that text, rendered as `<p>`, a newline, the text, a newline and `</p>` with a newline.
pub proof fn lemma_plain_text_is_one_paragraph(t: Seq<char>)
    requires
        t.len() > 0,
        is_plain(t),
    ensures
        parse_body(t) == seq![Node::Paragraph(seq![Node::Text(t)])],
        render_all(parse_body(t)) == "<p>\n"@ + t + "\n</p>\n"@,
{
    lemma_breaks_stop_only_on_markup();
    lemma_inline_plain(t, 0, t.len() as int, paragraph_breaks(), seq![], seq![]);
    assert(seq![] + t.subrange(0, t.len() as int) =~= t);
    let first = seq![Node::Text(t)];
    assert(seq![].push(Node::Text(t)) =~= first);
    assert(paragraph_rest(t, t.len() as int, first) == (first, t.len() as int));
    assert(is_plain_char(t[0]));
    assert(paragraph(t, 0) == (Node::Paragraph(first), t.len() as int));
    let body = seq![Node::Paragraph(first)];
    assert(seq![].push(Node::Paragraph(first)) =~= body);
    assert(top_level(t, t.len() as int, body) == body);
    assert(parse_body(t) == body);
    let empty = Seq::<Node>::empty();
    assert(render_all(empty) == Seq::<char>::empty());
    lemma_render_all_push(empty, Node::Text(t));
    lemma_render_all_push(empty, Node::Paragraph(first));
    assert(empty.push(Node::Text(t)) == first);
    assert(empty.push(Node::Paragraph(first)) == body);
    assert(render_all(first) =~= t);
    assert(render_all(body) =~= "<p>\n"@ + t + "\n</p>\n"@);
}

/// `k` heading markers.
pub open spec fn markers(k: nat) -> Seq<char> {
    Seq::new(k, |i: int| '°')
}

proof fn lemma_marker_run(s: Seq<char>, p: int, k: int)
    requires
        0 <= p <= k < s.len(),
        forall|i: int| 0 <= i < k ==> s[i] == '°',
        s[k] != '°',
    ensures
        marker_run(s, p) == k - p,
    decreases k - p,
{
    if p < k {
        lemma_marker_run(s, p + 1, k);
    }
}

/// After `j` heading markers and a rest that does not start with one, the marker run from
/// the start counts exactly `j`; with the first marker already consumed, the heading level
/// is then `min(j + 1, 6)` and the rest follows the run.
pub proof fn lemma_marker_run_counts(j: nat, r: Seq<char>)
    requires
        r.len() > 0 ==> r[0] != '°',
    ensures
        marker_run(markers(j) + r, 0) == j,
        clamp_level(1 + marker_run(markers(j) + r, 0)) == if j >= 5 {
            6
        } else {
            j + 1
        },
        (markers(j) + r).subrange(j as int, (j + r.len()) as int) == r,
{
    let s = markers(j) + r;
    if r.len() > 0 {
        assert(s[j as int] != '°');
        lemma_marker_run(s, 0, j as int);
    } else {
        lemma_marker_run_to_end(s, 0, j as int);
    }
    assert(s.subrange(j as int, (j + r.len()) as int) =~= r);
}

proof fn lemma_marker_run_to_end(s: Seq<char>, p: int, k: int)
    requires
        0 <= p <= k == s.len(),
        forall|i: int| 0 <= i < k ==> s[i] == '°',
    ensures
        marker_run(s, p) == k - p,
    decreases k - p,
{
    if p < k {
        lemma_marker_run_to_end(s, p + 1, k);
    }
}

proof fn lemma_text_until_line(s: Seq<char>, p: int, m: int, acc: Seq<char>)
    requires
        0 <= p <= m < s.len(),
        s[m] == '\n',
        forall|i: int| p <= i < m ==> s[i] != '\n',
    ensures
        text_until(s, p, '\n', acc) == (acc + s.subrange(p, m), m + 1),
    decreases m - p,
{
    if p == m {
        assert(acc + s.subrange(p, m) =~= acc);
    } else {
        lemma_text_until_line(s, p + 1, m, acc.push(s[p]));
        assert(acc.push(s[p]) + s.subrange(p + 1, m) =~= acc + s.subrange(p, m));
    }
}

/// A run of `k` heading markers, then a line of text and a newline, parses to one heading of
/// level `min(k, 6)` holding that text. The text must not itself start with a marker, which
/// would lengthen the run.
pub proof fn lemma_heading_level(k: nat, t: Seq<char>)
    requires
        k >= 1,
        forall|i: int| 0 <= i < t.len() ==> t[i] != '\n',
        t.len() > 0 ==> t[0] != '°',
    ensures
        parse_body(markers(k) + t + seq!['\n']) == seq![
            Node::Heading(if k > 6 { 6 } else { k }, t),
        ],
{
    let s = markers(k) + t + seq!['\n'];
    let m = (k + t.len()) as int;
    assert(s[k as int] != '°');
    lemma_marker_run(s, 1, k as int);
    lemma_text_until_line(s, k as int, m, seq![]);
    assert(seq![] + s.subrange(k as int, m) =~= t);
    assert(heading(s, 1) == (Node::Heading(clamp_level(k), t), m + 1));
    let body = seq![Node::Heading(clamp_level(k), t)];
    assert(seq![].push(Node::Heading(clamp_level(k), t)) =~= body);
    assert(top_level(s, m + 1, body) == body);
}

/// Two nonempty plain lines joined by a single newline stay in one paragraph, with a line
/// break node between their texts.
/// A paragraph over a plain line, a single newline and a nonempty plain line holds the
/// first text, a line break node and the second text, and takes the whole input.
pub proof fn lemma_paragraph_with_line_break(a: Seq<char>, b: Seq<char>)
    requires
        b.len() > 0,
        is_plain(a),
        is_plain(b),
    ensures
        paragraph(a + seq!['\n'] + b, 0) == (
        Node::Paragraph(seq![Node::Text(a), Node::NewLine, Node::Text(b)]),
        (a.len() + 1 + b.len()) as int,
        ),
{
    let s = a + seq!['\n'] + b;
    let n = a.len() as int;
    lemma_breaks_stop_only_on_markup();
    assert(paragraph_breaks().contains('\n')) by {
        assert(paragraph_breaks()[1] == '\n');
    }
    lemma_inline_plain(s, 0, n, paragraph_breaks(), seq![], seq![]);
    assert(s.subrange(0, n) =~= a);
    assert(seq![] + a =~= a);
    lemma_inline_plain(s, n + 1, s.len() as int, paragraph_breaks(), seq![], seq![]);
    assert(s.subrange(n + 1, s.len() as int) =~= b);
    assert(seq![] + b =~= b);
    assert(is_plain_char(b[0]));
    let first = seq![].push(Node::Text(a));
    let content = first.push(Node::NewLine) + seq![].push(Node::Text(b));
    assert(content =~= seq![Node::Text(a), Node::NewLine, Node::Text(b)]);
    assert(paragraph_rest(s, s.len() as int, content) == (content, s.len() as int));
    assert(paragraph_rest(s, n, first) == (content, s.len() as int));
}

pub proof fn lemma_single_newline_keeps_paragraph(a: Seq<char>, b: Seq<char>)
    requires
        a.len() > 0,
        b.len() > 0,
        is_plain(a),
        is_plain(b),
    ensures
        parse_body(a + seq!['\n'] + b) == seq![
            Node::Paragraph(seq![Node::Text(a), Node::NewLine, Node::Text(b)]),
        ],
{
    let s = a + seq!['\n'] + b;
    lemma_paragraph_with_line_break(a, b);
    assert(is_plain_char(a[0]));
    let content = seq![Node::Text(a), Node::NewLine, Node::Text(b)];
    let body = seq![].push(Node::Paragraph(content));
    assert(top_level(s, s.len() as int, body) == body);
    assert(body =~= seq![Node::Paragraph(content)]);
}

/// A plain line followed by a newline and a one-item list: the paragraph ends at the
/// newline and the list follows it, a bullet list for `{` and a numbered list for `[`.
pub proof fn lemma_list_after_newline_ends_paragraph(a: Seq<char>, open: char, b: Seq<char>)
    requires
        a.len() > 0,
        is_plain(a),
        is_plain(b),
        open == '{' || open == '[',
    ensures
        ({
            let close = if open == '{' { '}' } else { ']' };
            let items = seq![seq![Node::Text(b)]];
            let l = if open == '{' { Node::BulletList(items) } else { Node::NumberedList(items) };
            parse_body(a + seq!['\n', open] + b + seq![close]) == seq![
                Node::Paragraph(seq![Node::Text(a)]),
                l,
            ]
        }),
{
    let close = if open == '{' { '}' } else { ']' };
    let items = seq![seq![Node::Text(b)]];
    let l = if open == '{' { Node::BulletList(items) } else { Node::NumberedList(items) };
    let s = a + seq!['\n', open] + b + seq![close];
    let n = a.len() as int;
    let e = s.len() as int - 1;
    lemma_breaks_stop_only_on_markup();
    assert(paragraph_breaks().contains('\n')) by {
        assert(paragraph_breaks()[1] == '\n');
    }
    assert(seq![close].contains(close)) by {
        assert(seq![close][0] == close);
    }
    lemma_inline_plain(s, 0, n, paragraph_breaks(), seq![], seq![]);
    assert(s.subrange(0, n) =~= a);
    assert(seq![] + a =~= a);
    lemma_inline_plain(s, n + 2, e, seq![close], seq![], seq![]);
    assert(s.subrange(n + 2, e) =~= b);
    assert(seq![] + b =~= b);
    assert(is_plain_char(a[0]));
    let first = seq![].push(Node::Text(a));
    assert(first =~= seq![Node::Text(a)]);
    assert(paragraph(s, 0) == (Node::Paragraph(first), n + 1));
    let item = seq![].push(Node::Text(b));
    assert(item =~= seq![Node::Text(b)]);
    assert(seq![].push(item) =~= items);
    assert(list(s, n + 2, open, close, seq![]) == (items, s.len() as int));
    let p1 = seq![].push(Node::Paragraph(first));
    let body = p1.push(l);
    assert(top_level(s, s.len() as int, body) == body);
    assert(top_level(s, n + 1, p1) == body);
    assert(body =~= seq![Node::Paragraph(seq![Node::Text(a)]), l]);
}

/// Whether `c` occurs in `v`.
fn contains_char(v: &Vec<char>, c: char) -> (r: bool)
    ensures
        r == v@.contains(c),
{
    let mut i: usize = 0;
    while i < v.len()
        invariant
            i <= v.len(),
            forall|j: int| 0 <= j < i ==> v@[j] != c,
        decreases v.len() - i,
    {
        if v[i] == c {
            assert(v@[i as int] == c);
            return true;
        }
        i = i + 1;
    }
    false
}

/// Appends `e` to `elements`.
fn push_element(elements: &mut Vec<Element>, e: Element)
    ensures
        nodes_of(final(elements)@) == nodes_of(old(elements)@).push(node_of(e)),
{
    let ghost before = elements@;
    let ghost added = e;
    elements.push(e);
    proof {
        lemma_nodes_of_push(before, added);
    }
}

/// A parser over the characters of one document, with a forward-only cursor.
pub struct Parser {
    input: Vec<char>,
    pos: usize,
}

impl Parser {
    /// Parses a whole document; the head holds `file_stem` as its title.
    pub fn parse(input_chars: Vec<char>, file_stem: String) -> (r: HtmlDocument)
        ensures
            r@ == (file_stem@, parse_body(input_chars@)),
    {
        let mut parser = Parser { input: input_chars, pos: 0 };
        let head = HtmlHead::new(file_stem);
        let body = HtmlBody::new(parser.parse_top_level_elements());
        HtmlDocument::new(head, body)
    }

    spec fn wf(&self) -> bool {
        self.pos <= self.input.len()
    }

    fn next_is(&self, c: char) -> (r: bool)
        requires
            self.wf(),
        ensures
            r == at(self.input@, self.pos as int, c),
    {
        self.pos < self.input.len() && self.input[self.pos] == c
    }

    fn advance(&mut self)
        requires
            old(self).wf(),
        ensures
            final(self).wf(),
            final(self).input@ == old(self).input@,
            final(self).pos == adv(old(self).input@, old(self).pos as int),
    {
        if self.pos < self.input.len() {
            self.pos = self.pos + 1;
        }
    }

    fn inline_stops_here(&self, until: &Vec<char>) -> (r: bool)
        requires
            self.wf(),
        ensures
            r == inline_stops(self.input@, self.pos as int, until@),
    {
        if self.pos >= self.input.len() {
            true
        } else {
            let c = self.input[self.pos];
            c == '°' || contains_char(until, c)
        }
    }

    fn add_text_to_elements(&self, text: &mut String, elements: &mut Vec<Element>)
        ensures
            nodes_of(final(elements)@) == nodes_of(old(elements)@).push(Node::Text(old(text)@)),
            final(text)@ == Seq::<char>::empty(),
    {
        let mut content = String::new();
        std::mem::swap(text, &mut content);
        push_element(elements, Element::Text(Text::new(content)));
    }

    fn parse_text_until(&mut self, until_char: char) -> (r: String)
        requires
            old(self).wf(),
        ensures
            final(self).wf(),
            final(self).input@ == old(self).input@,
            final(self).pos >= old(self).pos,
            (r@, final(self).pos as int) == text_until(
                old(self).input@,
                old(self).pos as int,
                until_char,
                seq![],
            ),
    {
        let ghost s = self.input@;
        let ghost p0 = self.pos as int;
        let mut text = String::new();
        while self.pos < self.input.len() && self.input[self.pos] != until_char
            invariant
                self.wf(),
                self.input@ == s,
                self.pos >= p0,
                text_until(s, self.pos as int, until_char, text@) == text_until(
                    s,
                    p0,
                    until_char,
                    seq![],
                ),
            decreases self.input.len() - self.pos,
        {
            push_char(&mut text, self.input[self.pos]);
            self.pos = self.pos + 1;
        }
        self.advance();
        text
    }

    fn parse_link(&mut self) -> (r: Link)
        requires
            old(self).wf(),
        ensures
            final(self).wf(),
            final(self).input@ == old(self).input@,
            final(self).pos >= old(self).pos,
            (r@, final(self).pos as int) == link(old(self).input@, old(self).pos as int),
    {
        let ghost s = self.input@;
        let name = self.parse_text_until('~');
        let ghost q = self.pos as int;
        let mut target = String::new();
        while self.pos < self.input.len() && !(self.input[self.pos] == '<' && self.pos + 1
            < self.input.len() && self.input[self.pos + 1] == '<')
            invariant
                self.wf(),
                self.input@ == s,
                self.pos >= q,
                link_target(s, self.pos as int, target@) == link_target(s, q, seq![]),
            decreases self.input.len() - self.pos,
        {
            push_char(&mut target, self.input[self.pos]);
            self.pos = self.pos + 1;
        }
        if self.pos < self.input.len() {
            self.pos = self.pos + 2;
        }
        Link::new(name, target)
    }

    fn parse_image(&mut self) -> (r: Image)
        requires
            old(self).wf(),
        ensures
            final(self).wf(),
            final(self).input@ == old(self).input@,
            final(self).pos >= old(self).pos,
            (r@, final(self).pos as int) == image(old(self).input@, old(self).pos as int),
    {
        let name = self.parse_text_until('~');
        let src = self.parse_text_until('@');
        Image::new(name, src)
    }

    /// The level of a heading whose first marker was just consumed.
    fn parse_heading_type(&mut self) -> (r: HeadingType)
        requires
            old(self).wf(),
        ensures
            final(self).wf(),
            final(self).input@ == old(self).input@,
            r.level() == clamp_level(1 + marker_run(old(self).input@, old(self).pos as int)),
            final(self).pos == old(self).pos + marker_run(old(self).input@, old(self).pos as int),
    {
        let ghost s = self.input@;
        let ghost p0 = self.pos as int;
        let mut count: usize = 1;
        while self.next_is('°')
            invariant
                self.wf(),
                self.input@ == s,
                self.pos >= p0,
                marker_run(s, p0) == (self.pos - p0) + marker_run(s, self.pos as int),
                count == clamp_level((1 + self.pos - p0) as nat),
            decreases self.input.len() - self.pos,
        {
            self.pos = self.pos + 1;
            if count < 6 {
                count = count + 1;
            }
        }
        match count {
            1 => HeadingType::H1,
            2 => HeadingType::H2,
            3 => HeadingType::H3,
            4 => HeadingType::H4,
            5 => HeadingType::H5,
            _ => HeadingType::H6,
        }
    }

    /// Inline content up to a character of `until`, a heading marker or the end of input;
    /// the stopping character is left for the caller.
    fn parse_elements_until(&mut self, until: &Vec<char>) -> (r: Vec<Element>)
        requires
            old(self).wf(),
        ensures
            final(self).wf(),
            final(self).input@ == old(self).input@,
            final(self).pos >= old(self).pos,
            (nodes_of(r@), final(self).pos as int) == inline(
                old(self).input@,
                old(self).pos as int,
                until@,
                seq![],
                seq![],
            ),
            !inline_stops(old(self).input@, old(self).pos as int, until@) ==> final(self).pos
                > old(self).pos,
        decreases old(self).input.len() - old(self).pos, 1int,
    {
        let ghost s = self.input@;
        let ghost p0 = self.pos as int;
        let mut elements: Vec<Element> = Vec::new();
        let mut text = String::new();
        while !self.inline_stops_here(until)
            invariant
                self.wf(),
                self.input@ == s,
                self.pos >= p0,
                s == old(self).input@,
                p0 == old(self).pos,
                inline(s, self.pos as int, until@, nodes_of(elements@), text@) == inline(
                    s,
                    p0,
                    until@,
                    seq![],
                    seq![],
                ),
            decreases self.input.len() - self.pos,
        {
            let ghost p = self.pos as int;
            let ghost es = nodes_of(elements@);
            let ghost tx = text@;
            let c = self.input[self.pos];
            if c == '>' {
                self.add_text_to_elements(&mut text, &mut elements);
                self.pos = self.pos + 1;
                if self.next_is('>') {
                    self.pos = self.pos + 1;
                    let l = self.parse_link();
                    push_element(&mut elements, Element::Link(l));
                } else {
                    push_char(&mut text, '>');
                    assert(text@ =~= seq!['>']);
                }
            } else if c == '@' {
                self.add_text_to_elements(&mut text, &mut elements);
                self.pos = self.pos + 1;
                let img = self.parse_image();
                push_element(&mut elements, Element::Image(img));
            } else if c == '*' || c == '_' || c == '\'' {
                let mut inner_until: Vec<char> = Vec::new();
                inner_until.push(c);
                assert(inner_until@ =~= seq![c]);
                let content = self.content_from_parse_element_until(
                    &mut elements,
                    inner_until,
                    &mut text,
                );
                let e = if c == '*' {
                    Element::Bold(Bold::new(content))
                } else if c == '_' {
                    Element::Cursive(Cursive::new(content))
                } else {
                    Element::Monospace(Monospace::new(content))
                };
                push_element(&mut elements, e);
            } else if c == '|' {
                self.pos = self.pos + 1;
                if self.next_is('-') {
                    self.pos = self.pos + 1;
                    self.add_text_to_elements(&mut text, &mut elements);
                    push_element(&mut elements, Element::HorizontalRule(HorizontalRule));
                } else {
                    push_char(&mut text, '|');
                }
            } else if c == '\n' {
                self.pos = self.pos + 1;
                self.add_text_to_elements(&mut text, &mut elements);
                // A list opened right after a line break inside inline content is a bullet
                // list for either delimiter.
                if self.next_is('{') {
                    self.pos = self.pos + 1;
                    let items = self.parse_list('{', '}');
                    push_element(&mut elements, Element::BulletList(BulletList::new(items)));
                } else if self.next_is('[') {
                    self.pos = self.pos + 1;
                    let items = self.parse_list('[', ']');
                    push_element(&mut elements, Element::BulletList(BulletList::new(items)));
                } else if self.pos >= self.input.len() || self.input[self.pos] == '°' {
                } else {
                    push_element(&mut elements, Element::NewLine(NewLine));
                }
            } else if c == '\\' {
                self.pos = self.pos + 1;
                if self.pos < self.input.len() {
                    push_char(&mut text, self.input[self.pos]);
                    self.pos = self.pos + 1;
                } else {
                    push_char(&mut text, '\\');
                }
            } else {
                push_char(&mut text, c);
                self.pos = self.pos + 1;
            }
            assert(inline(s, self.pos as int, until@, nodes_of(elements@), text@) == inline(
                s,
                p,
                until@,
                es,
                tx,
            ));
        }
        self.add_text_to_elements(&mut text, &mut elements);
        elements
    }

    /// Consumes an opening formatting delimiter, flushes the pending text, parses the
    /// content up to the closing delimiter and consumes that too.
    fn content_from_parse_element_until(
        &mut self,
        elements: &mut Vec<Element>,
        until_chars: Vec<char>,
        text: &mut String,
    ) -> (r: Vec<Element>)
        requires
            old(self).wf(),
            old(self).pos < old(self).input.len(),
        ensures
            final(self).wf(),
            final(self).input@ == old(self).input@,
            nodes_of(final(elements)@) == nodes_of(old(elements)@).push(Node::Text(old(text)@)),
            final(text)@ == Seq::<char>::empty(),
            nodes_of(r@) == inline(
                old(self).input@,
                old(self).pos + 1,
                until_chars@,
                seq![],
                seq![],
            ).0,
            inline(old(self).input@, old(self).pos + 1, until_chars@, seq![], seq![]).1
                >= old(self).pos + 1,
            final(self).pos == adv(
                old(self).input@,
                inline(old(self).input@, old(self).pos + 1, until_chars@, seq![], seq![]).1,
            ),
        decreases old(self).input.len() - old(self).pos, 0int,
    {
        self.advance();
        self.add_text_to_elements(text, elements);
        let content = self.parse_elements_until(&until_chars);
        self.advance();
        content
    }

    /// The items of a list whose opening delimiter was just consumed.
    fn parse_list(&mut self, begin_char: char, end_char: char) -> (r: Vec<Vec<Element>>)
        requires
            old(self).wf(),
        ensures
            final(self).wf(),
            final(self).input@ == old(self).input@,
            final(self).pos >= old(self).pos,
            (items_of(r@), final(self).pos as int) == list(
                old(self).input@,
                old(self).pos as int,
                begin_char,
                end_char,
                seq![],
            ),
        decreases old(self).input.len() - old(self).pos, 2int,
    {
        let ghost s = self.input@;
        let ghost p0 = self.pos as int;
        let ghost whole = list(s, p0, begin_char, end_char, seq![]);
        let mut until: Vec<char> = Vec::new();
        until.push(end_char);
        assert(until@ =~= seq![end_char]);
        let mut items: Vec<Vec<Element>> = Vec::new();
        let mut more = true;
        while more
            invariant
                self.wf(),
                self.input@ == s,
                self.pos >= p0,
                s == old(self).input@,
                p0 == old(self).pos,
                until@ == seq![end_char],
                more ==> list(s, self.pos as int, begin_char, end_char, items_of(items@))
                    == whole,
                !more ==> (items_of(items@), self.pos as int) == whole,
            decreases self.input.len() - self.pos + if more {
                1int
            } else {
                0int
            },
        {
            let ghost p = self.pos as int;
            let ghost before = items@;
            let item = self.parse_elements_until(&until);
            let ghost added = item;
            items.push(item);
            proof {
                lemma_items_of_push(before, added);
            }
            self.advance();
            if self.next_is('\n') {
                self.advance();
                if self.next_is(begin_char) {
                    self.advance();
                } else {
                    more = false;
                }
            } else {
                more = false;
            }
        }
        items
    }

    fn parse_paragraph(&mut self) -> (r: Paragraph)
        requires
            old(self).wf(),
        ensures
            final(self).wf(),
            final(self).input@ == old(self).input@,
            final(self).pos >= old(self).pos,
            (r@, final(self).pos as int) == paragraph(old(self).input@, old(self).pos as int),
            ({
                let s = old(self).input@;
                let p = old(self).pos as int;
                p < s.len() && s[p] != '°' && s[p] != '{' && s[p] != '['
            }) ==> final(self).pos > old(self).pos,
    {
        let ghost s = self.input@;
        let ghost p0 = self.pos as int;
        let ghost starts = p0 < s.len() && s[p0] != '°' && s[p0] != '{' && s[p0] != '[';
        let mut until: Vec<char> = Vec::new();
        until.push('{');
        until.push('\n');
        until.push('[');
        assert(until@ =~= paragraph_breaks());
        let mut content = self.parse_elements_until(&until);
        let ghost whole = paragraph_rest(s, self.pos as int, nodes_of(content@));
        let mut more = true;
        while more
            invariant
                self.wf(),
                self.input@ == s,
                self.pos >= p0,
                until@ == paragraph_breaks(),
                more ==> paragraph_rest(s, self.pos as int, nodes_of(content@)) == whole,
                !more ==> (nodes_of(content@), self.pos as int) == whole,
                starts ==> (self.pos > p0 || (more && at(s, self.pos as int, '\n'))),
            decreases self.input.len() - self.pos + if more {
                1int
            } else {
                0int
            },
        {
            if self.next_is('\n') {
                self.advance();
                if self.next_is('\n') {
                    self.advance();
                    more = false;
                } else if self.next_is('{') || self.next_is('[') {
                    more = false;
                } else {
                    let ghost p = self.pos as int;
                    push_element(&mut content, Element::NewLine(NewLine));
                    let mut rest = self.parse_elements_until(&until);
                    let ghost before = content@;
                    let ghost added = rest@;
                    content.append(&mut rest);
                    proof {
                        lemma_nodes_of_append(before, added);
                    }
                }
            } else {
                more = false;
            }
        }
        Paragraph::new(content)
    }

    fn parse_top_level_elements(&mut self) -> (r: Vec<Element>)
        requires
            old(self).wf(),
        ensures
            final(self).wf(),
            final(self).input@ == old(self).input@,
            final(self).pos == final(self).input.len(),
            nodes_of(r@) == top_level(old(self).input@, old(self).pos as int, seq![]),
    {
        let ghost s = self.input@;
        let ghost p0 = self.pos as int;
        let mut elements: Vec<Element> = Vec::new();
        while self.pos < self.input.len()
            invariant
                self.wf(),
                self.input@ == s,
                top_level(s, self.pos as int, nodes_of(elements@)) == top_level(s, p0, seq![]),
            decreases self.input.len() - self.pos,
        {
            let ghost p = self.pos as int;
            let ghost es = nodes_of(elements@);
            let c = self.input[self.pos];
            if c == '°' {
                self.pos = self.pos + 1;
                let heading_type = self.parse_heading_type();
                let content = self.parse_text_until('\n');
                push_element(&mut elements, Element::Heading(Heading::new(heading_type, content)));
            } else if c == '{' {
                self.pos = self.pos + 1;
                let items = self.parse_list('{', '}');
                push_element(&mut elements, Element::BulletList(BulletList::new(items)));
            } else if c == '[' {
                self.pos = self.pos + 1;
                let items = self.parse_list('[', ']');
                push_element(&mut elements, Element::NumberedList(NumberedList::new(items)));
            } else if c == '@' {
                self.pos = self.pos + 1;
                let img = self.parse_image();
                push_element(&mut elements, Element::Image(img));
            } else {
                let para = self.parse_paragraph();
                push_element(&mut elements, Element::Paragraph(para));
            }
            assert(top_level(s, self.pos as int, nodes_of(elements@)) == top_level(s, p, es));
        }
        elements
    }
}

} // verus!
