use vstd::prelude::*;
use vstd::string::*;

verus! {

/// What an element node stands for, as a mathematical value.
pub enum Node {
    Text(Seq<char>),
    Heading(nat, Seq<char>),
    Paragraph(Seq<Node>),
    NewLine,
    Bold(Seq<Node>),
    Cursive(Seq<Node>),
    Monospace(Seq<Node>),
    HorizontalRule,
    BulletList(Seq<Seq<Node>>),
    NumberedList(Seq<Seq<Node>>),
    Link(Seq<char>, Seq<char>),
    Image(Seq<char>, Seq<char>),
}

pub open spec fn heading_open(level: nat) -> Seq<char> {
    if level == 1 {
        "<h1>"@
    } else if level == 2 {
        "<h2>"@
    } else if level == 3 {
        "<h3>"@
    } else if level == 4 {
        "<h4>"@
    } else if level == 5 {
        "<h5>"@
    } else {
        "<h6>"@
    }
}

pub open spec fn heading_close(level: nat) -> Seq<char> {
    if level == 1 {
        "</h1>\n"@
    } else if level == 2 {
        "</h2>\n"@
    } else if level == 3 {
        "</h3>\n"@
    } else if level == 4 {
        "</h4>\n"@
    } else if level == 5 {
        "</h5>\n"@
    } else {
        "</h6>\n"@
    }
}

/// The HTML text of one node. Content is inserted verbatim, without escaping.
pub open spec fn render(n: Node) -> Seq<char>
    decreases n,
{
    match n {
        Node::Text(t) => t,
        Node::Heading(l, c) => heading_open(l) + c + heading_close(l),
        Node::Paragraph(cs) => "<p>\n"@ + render_all(cs) + "\n</p>\n"@,
        Node::NewLine => "<br>\n"@,
        Node::Bold(cs) => "<strong>"@ + render_all(cs) + "</strong>"@,
        Node::Cursive(cs) => "<em>"@ + render_all(cs) + "</em>"@,
        Node::Monospace(cs) => "<code>"@ + render_all(cs) + "</code>"@,
        Node::HorizontalRule => "<hr>"@,
        Node::BulletList(items) => "<ul>\n"@ + render_items(items) + "</ul>\n"@,
        Node::NumberedList(items) => "<ol>\n"@ + render_items(items) + "</ol>\n"@,
        Node::Link(name, href) => "<a href=\""@ + href + "\">"@ + name + "</a>"@,
        Node::Image(alt, src) => "<img src=\""@ + src + "\" alt=\""@ + alt + "\">\n"@,
    }
}

/// The renderings of a sequence of nodes, concatenated in order.
pub open spec fn render_all(ns: Seq<Node>) -> Seq<char>
    decreases ns,
{
    if ns.len() == 0 {
        seq![]
    } else {
        render_all(ns.drop_last()) + render(ns.last())
    }
}

/// The `<li>` lines of a list, one per item, in order.
pub open spec fn render_items(items: Seq<Seq<Node>>) -> Seq<char>
    decreases items,
{
    if items.len() == 0 {
        seq![]
    } else {
        render_items(items.drop_last()) + "<li>"@ + render_all(items.last()) + "</li>\n"@
    }
}

/// Renders one node of each kind; every kind implements it.
pub trait HtmlElement {
    spec fn html(&self) -> Seq<char>;

    fn as_string(&self) -> (r: String)
        ensures
            r@ == self.html(),
    ;
}

pub struct Text {
    pub content: String,
}

#[derive(Clone, Copy, PartialEq, Eq, Structural, Debug)]
pub enum HeadingType {
    H1,
    H2,
    H3,
    H4,
    H5,
    H6,
}

pub struct Heading {
    pub h_type: HeadingType,
    pub content: String,
}

pub struct Paragraph {
    pub content: Vec<Element>,
}

pub struct NewLine;

pub struct Bold {
    pub content: Vec<Element>,
}

pub struct Cursive {
    pub content: Vec<Element>,
}

pub struct Monospace {
    pub content: Vec<Element>,
}

pub struct HorizontalRule;

pub struct BulletList {
    pub items: Vec<Vec<Element>>,
}

pub struct NumberedList {
    pub items: Vec<Vec<Element>>,
}

pub struct Link {
    pub name: String,
    pub link: String,
}

pub struct Image {
    pub name: String,
    pub src: String,
}

/// One node of the tree, of any kind.
pub enum Element {
    Text(Text),
    Heading(Heading),
    Paragraph(Paragraph),
    NewLine(NewLine),
    Bold(Bold),
    Cursive(Cursive),
    Monospace(Monospace),
    HorizontalRule(HorizontalRule),
    BulletList(BulletList),
    NumberedList(NumberedList),
    Link(Link),
    Image(Image),
}

impl HeadingType {
    pub open spec fn level(self) -> nat {
        match self {
            HeadingType::H1 => 1,
            HeadingType::H2 => 2,
            HeadingType::H3 => 3,
            HeadingType::H4 => 4,
            HeadingType::H5 => 5,
            HeadingType::H6 => 6,
        }
    }
}

pub open spec fn node_of(e: Element) -> Node
    decreases e,
{
    match e {
        Element::Text(t) => Node::Text(t.content@),
        Element::Heading(h) => Node::Heading(h.h_type.level(), h.content@),
        Element::Paragraph(p) => Node::Paragraph(nodes_of(p.content@)),
        Element::NewLine(_) => Node::NewLine,
        Element::Bold(b) => Node::Bold(nodes_of(b.content@)),
        Element::Cursive(c) => Node::Cursive(nodes_of(c.content@)),
        Element::Monospace(m) => Node::Monospace(nodes_of(m.content@)),
        Element::HorizontalRule(_) => Node::HorizontalRule,
        Element::BulletList(l) => Node::BulletList(items_of(l.items@)),
        Element::NumberedList(l) => Node::NumberedList(items_of(l.items@)),
        Element::Link(l) => Node::Link(l.name@, l.link@),
        Element::Image(i) => Node::Image(i.name@, i.src@),
    }
}

pub open spec fn nodes_of(es: Seq<Element>) -> Seq<Node>
    decreases es,
{
    if es.len() == 0 {
        seq![]
    } else {
        nodes_of(es.drop_last()).push(node_of(es.last()))
    }
}

pub open spec fn items_of(items: Seq<Vec<Element>>) -> Seq<Seq<Node>>
    decreases items,
{
    if items.len() == 0 {
        seq![]
    } else {
        items_of(items.drop_last()).push(nodes_of(items.last()@))
    }
}

pub proof fn lemma_nodes_of_push(es: Seq<Element>, e: Element)
    ensures
        nodes_of(es.push(e)) == nodes_of(es).push(node_of(e)),
{
    assert(es.push(e).drop_last() =~= es);
}

pub proof fn lemma_items_of_push(items: Seq<Vec<Element>>, item: Vec<Element>)
    ensures
        items_of(items.push(item)) == items_of(items).push(nodes_of(item@)),
{
    assert(items.push(item).drop_last() =~= items);
}

pub proof fn lemma_nodes_of_append(a: Seq<Element>, b: Seq<Element>)
    ensures
        nodes_of(a + b) == nodes_of(a) + nodes_of(b),
    decreases b.len(),
{
    if b.len() == 0 {
        assert(a + b =~= a);
        assert(nodes_of(b) =~= seq![]);
        assert(nodes_of(a) + nodes_of(b) =~= nodes_of(a));
    } else {
        let b1 = b.drop_last();
        lemma_nodes_of_append(a, b1);
        assert((a + b).drop_last() =~= a + b1);
        assert((a + b).last() == b.last());
        assert(nodes_of(a + b) =~= nodes_of(a) + nodes_of(b));
    }
}

pub proof fn lemma_render_all_push(ns: Seq<Node>, n: Node)
    ensures
        render_all(ns.push(n)) == render_all(ns) + render(n),
{
    assert(ns.push(n).drop_last() =~= ns);
}

pub proof fn lemma_render_items_push(items: Seq<Seq<Node>>, item: Seq<Node>)
    ensures
        render_items(items.push(item)) == render_items(items) + "<li>"@ + render_all(item)
            + "</li>\n"@,
{
    assert(items.push(item).drop_last() =~= items);
}

impl View for Text {
    type V = Node;

    open spec fn view(&self) -> Node {
        Node::Text(self.content@)
    }
}

impl View for Heading {
    type V = Node;

    open spec fn view(&self) -> Node {
        Node::Heading(self.h_type.level(), self.content@)
    }
}

impl View for Paragraph {
    type V = Node;

    open spec fn view(&self) -> Node {
        Node::Paragraph(nodes_of(self.content@))
    }
}

impl View for NewLine {
    type V = Node;

    open spec fn view(&self) -> Node {
        Node::NewLine
    }
}

impl View for Bold {
    type V = Node;

    open spec fn view(&self) -> Node {
        Node::Bold(nodes_of(self.content@))
    }
}

impl View for Cursive {
    type V = Node;

    open spec fn view(&self) -> Node {
        Node::Cursive(nodes_of(self.content@))
    }
}

impl View for Monospace {
    type V = Node;

    open spec fn view(&self) -> Node {
        Node::Monospace(nodes_of(self.content@))
    }
}

impl View for HorizontalRule {
    type V = Node;

    open spec fn view(&self) -> Node {
        Node::HorizontalRule
    }
}

impl View for BulletList {
    type V = Node;

    open spec fn view(&self) -> Node {
        Node::BulletList(items_of(self.items@))
    }
}

impl View for NumberedList {
    type V = Node;

    open spec fn view(&self) -> Node {
        Node::NumberedList(items_of(self.items@))
    }
}

impl View for Link {
    type V = Node;

    open spec fn view(&self) -> Node {
        Node::Link(self.name@, self.link@)
    }
}

impl View for Image {
    type V = Node;

    open spec fn view(&self) -> Node {
        Node::Image(self.name@, self.src@)
    }
}

impl View for Element {
    type V = Node;

    open spec fn view(&self) -> Node {
        node_of(*self)
    }
}

impl Text {
    pub fn new(content: String) -> (r: Self)
        ensures
            r@ == Node::Text(content@),
    {
        Self { content }
    }

    pub(crate) fn write_html(&self, out: &mut String)
        ensures
            final(out)@ == old(out)@ + render(self@),
    {
        out.append(self.content.as_str());
    }
}

fn heading_open_tag(h_type: HeadingType) -> (r: &'static str)
    ensures
        r@ == heading_open(h_type.level()),
{
    match h_type {
        HeadingType::H1 => "<h1>",
        HeadingType::H2 => "<h2>",
        HeadingType::H3 => "<h3>",
        HeadingType::H4 => "<h4>",
        HeadingType::H5 => "<h5>",
        HeadingType::H6 => "<h6>",
    }
}

fn heading_close_tag(h_type: HeadingType) -> (r: &'static str)
    ensures
        r@ == heading_close(h_type.level()),
{
    match h_type {
        HeadingType::H1 => "</h1>\n",
        HeadingType::H2 => "</h2>\n",
        HeadingType::H3 => "</h3>\n",
        HeadingType::H4 => "</h4>\n",
        HeadingType::H5 => "</h5>\n",
        HeadingType::H6 => "</h6>\n",
    }
}

impl Heading {
    pub fn new(h_type: HeadingType, content: String) -> (r: Self)
        ensures
            r@ == Node::Heading(h_type.level(), content@),
    {
        Heading { h_type, content }
    }

    pub(crate) fn write_html(&self, out: &mut String)
        ensures
            final(out)@ == old(out)@ + render(self@),
    {
        out.append(heading_open_tag(self.h_type));
        out.append(self.content.as_str());
        out.append(heading_close_tag(self.h_type));
        proof {
            let l = self.h_type.level();
            assert(render(self@) == heading_open(l) + self.content@ + heading_close(l));
            assert(final(out)@ =~= old(out)@ + render(self@));
        }
    }
}

/// Appends the renderings of `es`, in order.
fn write_all(es: &Vec<Element>, out: &mut String)
    ensures
        final(out)@ == old(out)@ + render_all(nodes_of(es@)),
    decreases es,
{
    let mut i: usize = 0;
    while i < es.len()
        invariant
            i <= es.len(),
            out@ == old(out)@ + render_all(nodes_of(es@.subrange(0, i as int))),
        decreases es.len() - i,
    {
        es[i].write_html(out);
        proof {
            let pre = es@.subrange(0, i as int);
            assert(es@.subrange(0, i + 1) =~= pre.push(es@[i as int]));
            lemma_nodes_of_push(pre, es@[i as int]);
            lemma_render_all_push(nodes_of(pre), node_of(es@[i as int]));
            assert(out@ =~= old(out)@ + render_all(nodes_of(es@.subrange(0, i + 1))));
        }
        i = i + 1;
    }
    assert(es@.subrange(0, es.len() as int) =~= es@);
}

/// Appends one `<li>` line per item, in order.
fn write_items(items: &Vec<Vec<Element>>, out: &mut String)
    ensures
        final(out)@ == old(out)@ + render_items(items_of(items@)),
    decreases items,
{
    let mut i: usize = 0;
    while i < items.len()
        invariant
            i <= items.len(),
            out@ == old(out)@ + render_items(items_of(items@.subrange(0, i as int))),
        decreases items.len() - i,
    {
        out.append("<li>");
        write_all(&items[i], out);
        out.append("</li>\n");
        proof {
            let pre = items@.subrange(0, i as int);
            assert(items@.subrange(0, i + 1) =~= pre.push(items@[i as int]));
            lemma_items_of_push(pre, items@[i as int]);
            lemma_render_items_push(items_of(pre), nodes_of(items@[i as int]@));
            assert(out@ =~= old(out)@ + render_items(items_of(items@.subrange(0, i + 1))));
        }
        i = i + 1;
    }
    assert(items@.subrange(0, items.len() as int) =~= items@);
}

impl Paragraph {
    pub fn new(content: Vec<Element>) -> (r: Paragraph)
        ensures
            r@ == Node::Paragraph(nodes_of(content@)),
    {
        Paragraph { content }
    }

    pub(crate) fn write_html(&self, out: &mut String)
        ensures
            final(out)@ == old(out)@ + render(self@),
        decreases self,
    {
        out.append("<p>\n");
        write_all(&self.content, out);
        out.append("\n</p>\n");
        assert(final(out)@ =~= old(out)@ + render(self@));
    }
}

impl NewLine {
    pub(crate) fn write_html(&self, out: &mut String)
        ensures
            final(out)@ == old(out)@ + render(self@),
    {
        out.append("<br>\n");
    }
}

impl Bold {
    pub fn new(content: Vec<Element>) -> (r: Self)
        ensures
            r@ == Node::Bold(nodes_of(content@)),
    {
        Bold { content }
    }

    pub(crate) fn write_html(&self, out: &mut String)
        ensures
            final(out)@ == old(out)@ + render(self@),
        decreases self,
    {
        out.append("<strong>");
        write_all(&self.content, out);
        out.append("</strong>");
        assert(final(out)@ =~= old(out)@ + render(self@));
    }
}

impl Cursive {
    pub fn new(content: Vec<Element>) -> (r: Self)
        ensures
            r@ == Node::Cursive(nodes_of(content@)),
    {
        Cursive { content }
    }

    pub(crate) fn write_html(&self, out: &mut String)
        ensures
            final(out)@ == old(out)@ + render(self@),
        decreases self,
    {
        out.append("<em>");
        write_all(&self.content, out);
        out.append("</em>");
        assert(final(out)@ =~= old(out)@ + render(self@));
    }
}

impl Monospace {
    pub fn new(content: Vec<Element>) -> (r: Self)
        ensures
            r@ == Node::Monospace(nodes_of(content@)),
    {
        Monospace { content }
    }

    pub(crate) fn write_html(&self, out: &mut String)
        ensures
            final(out)@ == old(out)@ + render(self@),
        decreases self,
    {
        out.append("<code>");
        write_all(&self.content, out);
        out.append("</code>");
        assert(final(out)@ =~= old(out)@ + render(self@));
    }
}

impl HorizontalRule {
    pub(crate) fn write_html(&self, out: &mut String)
        ensures
            final(out)@ == old(out)@ + render(self@),
    {
        out.append("<hr>");
    }
}

impl BulletList {
    pub fn new(items: Vec<Vec<Element>>) -> (r: Self)
        ensures
            r@ == Node::BulletList(items_of(items@)),
    {
        BulletList { items }
    }

    pub(crate) fn write_html(&self, out: &mut String)
        ensures
            final(out)@ == old(out)@ + render(self@),
        decreases self,
    {
        out.append("<ul>\n");
        write_items(&self.items, out);
        out.append("</ul>\n");
        assert(final(out)@ =~= old(out)@ + render(self@));
    }
}

impl NumberedList {
    pub fn new(items: Vec<Vec<Element>>) -> (r: Self)
        ensures
            r@ == Node::NumberedList(items_of(items@)),
    {
        NumberedList { items }
    }

    pub(crate) fn write_html(&self, out: &mut String)
        ensures
            final(out)@ == old(out)@ + render(self@),
        decreases self,
    {
        out.append("<ol>\n");
        write_items(&self.items, out);
        out.append("</ol>\n");
        assert(final(out)@ =~= old(out)@ + render(self@));
    }
}

impl Link {
    pub fn new(name: String, link: String) -> (r: Self)
        ensures
            r@ == Node::Link(name@, link@),
    {
        Link { name, link }
    }

    pub(crate) fn write_html(&self, out: &mut String)
        ensures
            final(out)@ == old(out)@ + render(self@),
    {
        out.append("<a href=\"");
        out.append(self.link.as_str());
        out.append("\">");
        out.append(self.name.as_str());
        out.append("</a>");
        assert(final(out)@ =~= old(out)@ + render(self@));
    }
}

impl Image {
    pub fn new(name: String, src: String) -> (r: Self)
        ensures
            r@ == Node::Image(name@, src@),
    {
        Image { name, src }
    }

    pub(crate) fn write_html(&self, out: &mut String)
        ensures
            final(out)@ == old(out)@ + render(self@),
    {
        out.append("<img src=\"");
        out.append(self.src.as_str());
        out.append("\" alt=\"");
        out.append(self.name.as_str());
        out.append("\">\n");
        assert(final(out)@ =~= old(out)@ + render(self@));
    }
}

impl Element {
    /// Appends this node's rendering to `out`.
    pub fn write_html(&self, out: &mut String)
        ensures
            final(out)@ == old(out)@ + render(self@),
        decreases self,
    {
        match self {
            Element::Text(t) => t.write_html(out),
            Element::Heading(h) => h.write_html(out),
            Element::Paragraph(p) => p.write_html(out),
            Element::NewLine(n) => n.write_html(out),
            Element::Bold(b) => b.write_html(out),
            Element::Cursive(c) => c.write_html(out),
            Element::Monospace(m) => m.write_html(out),
            Element::HorizontalRule(h) => h.write_html(out),
            Element::BulletList(l) => l.write_html(out),
            Element::NumberedList(l) => l.write_html(out),
            Element::Link(l) => l.write_html(out),
            Element::Image(i) => i.write_html(out),
        }
    }
}

impl HtmlElement for Text {
    open spec fn html(&self) -> Seq<char> {
        render(self@)
    }

    fn as_string(&self) -> (r: String) {
        let mut out = String::new();
        self.write_html(&mut out);
        assert(out@ =~= render(self@));
        out
    }
}

impl HtmlElement for Heading {
    open spec fn html(&self) -> Seq<char> {
        render(self@)
    }

    fn as_string(&self) -> (r: String) {
        let mut out = String::new();
        self.write_html(&mut out);
        assert(out@ =~= render(self@));
        out
    }
}

impl HtmlElement for Paragraph {
    open spec fn html(&self) -> Seq<char> {
        render(self@)
    }

    fn as_string(&self) -> (r: String) {
        let mut out = String::new();
        self.write_html(&mut out);
        assert(out@ =~= render(self@));
        out
    }
}

impl HtmlElement for NewLine {
    open spec fn html(&self) -> Seq<char> {
        render(self@)
    }

    fn as_string(&self) -> (r: String) {
        let mut out = String::new();
        self.write_html(&mut out);
        assert(out@ =~= render(self@));
        out
    }
}

impl HtmlElement for Bold {
    open spec fn html(&self) -> Seq<char> {
        render(self@)
    }

    fn as_string(&self) -> (r: String) {
        let mut out = String::new();
        self.write_html(&mut out);
        assert(out@ =~= render(self@));
        out
    }
}

impl HtmlElement for Cursive {
    open spec fn html(&self) -> Seq<char> {
        render(self@)
    }

    fn as_string(&self) -> (r: String) {
        let mut out = String::new();
        self.write_html(&mut out);
        assert(out@ =~= render(self@));
        out
    }
}

impl HtmlElement for Monospace {
    open spec fn html(&self) -> Seq<char> {
        render(self@)
    }

    fn as_string(&self) -> (r: String) {
        let mut out = String::new();
        self.write_html(&mut out);
        assert(out@ =~= render(self@));
        out
    }
}

impl HtmlElement for HorizontalRule {
    open spec fn html(&self) -> Seq<char> {
        render(self@)
    }

    fn as_string(&self) -> (r: String) {
        let mut out = String::new();
        self.write_html(&mut out);
        assert(out@ =~= render(self@));
        out
    }
}

impl HtmlElement for BulletList {
    open spec fn html(&self) -> Seq<char> {
        render(self@)
    }

    fn as_string(&self) -> (r: String) {
        let mut out = String::new();
        self.write_html(&mut out);
        assert(out@ =~= render(self@));
        out
    }
}

impl HtmlElement for NumberedList {
    open spec fn html(&self) -> Seq<char> {
        render(self@)
    }

    fn as_string(&self) -> (r: String) {
        let mut out = String::new();
        self.write_html(&mut out);
        assert(out@ =~= render(self@));
        out
    }
}

impl HtmlElement for Link {
    open spec fn html(&self) -> Seq<char> {
        render(self@)
    }

    fn as_string(&self) -> (r: String) {
        let mut out = String::new();
        self.write_html(&mut out);
        assert(out@ =~= render(self@));
        out
    }
}

impl HtmlElement for Image {
    open spec fn html(&self) -> Seq<char> {
        render(self@)
    }

    fn as_string(&self) -> (r: String) {
        let mut out = String::new();
        self.write_html(&mut out);
        assert(out@ =~= render(self@));
        out
    }
}

impl HtmlElement for Element {
    open spec fn html(&self) -> Seq<char> {
        render(self@)
    }

    fn as_string(&self) -> (r: String) {
        let mut out = String::new();
        self.write_html(&mut out);
        assert(out@ =~= render(self@));
        out
    }
}

} // verus!
