use vstd::prelude::*;
use vstd::string::*;

use crate::element::{lemma_nodes_of_push, lemma_render_all_push, node_of, nodes_of, render_all, Element, Node};

verus! {

/// `<head>` with the document title.
pub open spec fn head_html(title: Seq<char>) -> Seq<char> {
    "<head>\n<title>"@ + title + "</title>\n</head>\n"@
}

/// `<body>` around the top-level elements, in order.
pub open spec fn body_html(elements: Seq<Node>) -> Seq<char> {
    "<body>\n"@ + render_all(elements) + "</body>\n"@
}

/// A whole document: the head followed by the body, no separator.
pub open spec fn document_html(title: Seq<char>, elements: Seq<Node>) -> Seq<char> {
    head_html(title) + body_html(elements)
}

pub struct HtmlHead {
    pub title: String,
}

pub struct HtmlBody {
    pub elements: Vec<Element>,
}

pub struct HtmlDocument {
    pub head: HtmlHead,
    pub body: HtmlBody,
}

impl View for HtmlHead {
    type V = Seq<char>;

    open spec fn view(&self) -> Seq<char> {
        self.title@
    }
}

impl View for HtmlBody {
    type V = Seq<Node>;

    open spec fn view(&self) -> Seq<Node> {
        nodes_of(self.elements@)
    }
}

impl View for HtmlDocument {
    type V = (Seq<char>, Seq<Node>);

    open spec fn view(&self) -> (Seq<char>, Seq<Node>) {
        (self.head@, self.body@)
    }
}

impl HtmlHead {
    pub fn new(title: String) -> (r: Self)
        ensures
            r@ == title@,
    {
        Self { title }
    }

    pub fn as_string(&self) -> (r: String)
        ensures
            r@ == head_html(self@),
    {
        let mut out = String::new();
        out.append("<head>\n<title>");
        out.append(self.title.as_str());
        out.append("</title>\n</head>\n");
        assert(out@ =~= head_html(self@));
        out
    }
}

impl HtmlBody {
    pub fn new(elements: Vec<Element>) -> (r: Self)
        ensures
            r@ == nodes_of(elements@),
    {
        Self { elements }
    }

    pub fn as_string(&self) -> (r: String)
        ensures
            r@ == body_html(self@),
    {
        let mut out = String::new();
        out.append("<body>\n");
        let mut i: usize = 0;
        while i < self.elements.len()
            invariant
                i <= self.elements.len(),
                out@ == "<body>\n"@ + render_all(nodes_of(self.elements@.subrange(0, i as int))),
            decreases self.elements.len() - i,
        {
            self.elements[i].write_html(&mut out);
            proof {
                let pre = self.elements@.subrange(0, i as int);
                let e = self.elements@[i as int];
                assert(self.elements@.subrange(0, i + 1) =~= pre.push(e));
                lemma_nodes_of_push(pre, e);
                lemma_render_all_push(nodes_of(pre), node_of(e));
                assert(out@ =~= "<body>\n"@ + render_all(
                    nodes_of(self.elements@.subrange(0, i + 1)),
                ));
            }
            i = i + 1;
        }
        assert(self.elements@.subrange(0, i as int) =~= self.elements@);
        out.append("</body>\n");
        assert(out@ =~= body_html(self@));
        out
    }
}

impl HtmlDocument {
    pub fn new(head: HtmlHead, body: HtmlBody) -> (r: Self)
        ensures
            r@ == (head@, body@),
    {
        Self { head, body }
    }

    /// The full HTML text of the document.
    pub fn as_string(&self) -> (r: String)
        ensures
            r@ == document_html(self@.0, self@.1),
    {
        let head = self.head.as_string();
        let body = self.body.as_string();
        let r = head.concat(body.as_str());
        r
    }
}

} // verus!
