//! The HTML document builder: a tree of owned element nodes held in one
//! arena, grown incrementally through node handles and serialized in a
//! single pass. A handle stays valid and mutable for the document's whole
//! life, so a parent can keep taking new children after a child's handle
//! is handed out; a node's children serialize in the exact order they
//! were appended. Void elements are a distinct kind of node that never
//! takes children. Attributes are structured name-value pairs, escaped at
//! serialization; text children are escaped too, while raw children are
//! emitted verbatim for content that is itself HTML.

use vstd::prelude::*;
use vstd::string::*;

use crate::text::push_char;

verus! {

/// One entry in a node's child list: a child element (by arena index),
/// escaped text, or raw HTML emitted verbatim.
pub enum Child {
    Element(usize),
    Text(String),
    Raw(String),
}

/// A child as mathematical values.
#[verifier::ext_equal]
pub enum ChildView {
    Element(int),
    Text(Seq<char>),
    Raw(Seq<char>),
}

impl View for Child {
    type V = ChildView;

    open spec fn view(&self) -> ChildView {
        match self {
            Child::Element(i) => ChildView::Element(*i as int),
            Child::Text(s) => ChildView::Text(s@),
            Child::Raw(s) => ChildView::Raw(s@),
        }
    }
}

/// One element node: its tag, its attributes and children in append
/// order, and whether it is a void element (no children, no closing tag).
pub struct NodeData {
    pub tag: String,
    pub attrs: Vec<(String, String)>,
    pub children: Vec<Child>,
    pub void: bool,
}

/// A node as mathematical values.
#[verifier::ext_equal]
pub struct NodeView {
    pub tag: Seq<char>,
    pub attrs: Seq<(Seq<char>, Seq<char>)>,
    pub children: Seq<ChildView>,
    pub void: bool,
}

impl View for NodeData {
    type V = NodeView;

    open spec fn view(&self) -> NodeView {
        NodeView {
            tag: self.tag@,
            attrs: self.attrs@.map_values(|a: (String, String)| (a.0@, a.1@)),
            children: self.children@.map_values(|c: Child| c@),
            void: self.void,
        }
    }
}

/// Whether a child of node `i` is a leaf or an element strictly later
/// in the arena.
pub open spec fn child_in_range(doc: Seq<NodeView>, i: int, c: ChildView) -> bool {
    match c {
        ChildView::Element(j) => i < j < doc.len(),
        ChildView::Text(_) => true,
        ChildView::Raw(_) => true,
    }
}

/// Each child element of node `i` lies strictly later in the arena, and
/// a void node has no children.
pub open spec fn node_wf(doc: Seq<NodeView>, i: int) -> bool {
    &&& (forall|k: int| 0 <= k < doc[i].children.len()
        ==> child_in_range(doc, i, #[trigger] doc[i].children[k]))
    &&& (doc[i].void ==> doc[i].children.len() == 0)
}

/// A well-formed arena: nonempty, its first node the document root, every
/// node's child elements strictly later than their parent.
pub open spec fn doc_wf(doc: Seq<NodeView>) -> bool {
    doc.len() >= 1 && (forall|i: int| 0 <= i < doc.len() ==> #[trigger] node_wf(doc, i))
}

/// What one text character serializes as: `&` and `<` are escaped, the
/// rest stand as themselves.
pub open spec fn escape_text_char(c: char) -> Seq<char> {
    if c == '&' {
        seq!['&', 'a', 'm', 'p', ';']
    } else if c == '<' {
        seq!['&', 'l', 't', ';']
    } else {
        seq![c]
    }
}

/// Text escaped for element content.
pub open spec fn escape_text(s: Seq<char>) -> Seq<char>
    decreases s.len(),
{
    if s.len() == 0 {
        Seq::empty()
    } else {
        escape_text_char(s[0]) + escape_text(s.skip(1))
    }
}

/// What one attribute-value character serializes as: `&`, `<` and the
/// double quote are escaped.
pub open spec fn escape_attr_char(c: char) -> Seq<char> {
    if c == '"' {
        seq!['&', 'q', 'u', 'o', 't', ';']
    } else {
        escape_text_char(c)
    }
}

/// Text escaped for a double-quoted attribute value.
pub open spec fn escape_attr(s: Seq<char>) -> Seq<char>
    decreases s.len(),
{
    if s.len() == 0 {
        Seq::empty()
    } else {
        escape_attr_char(s[0]) + escape_attr(s.skip(1))
    }
}

/// The attribute text of a node: one ` name="value"` per attribute, in
/// append order, values escaped.
pub open spec fn render_attrs(attrs: Seq<(Seq<char>, Seq<char>)>) -> Seq<char>
    decreases attrs.len(),
{
    if attrs.len() == 0 {
        Seq::empty()
    } else {
        seq![' '] + attrs[0].0 + seq!['=', '"'] + escape_attr(attrs[0].1) + seq!['"']
            + render_attrs(attrs.skip(1))
    }
}

/// A node's opening tag, attributes included.
pub open spec fn open_tag(n: NodeView) -> Seq<char> {
    seq!['<'] + n.tag + render_attrs(n.attrs) + seq!['>']
}

/// A node's closing tag.
pub open spec fn close_tag(n: NodeView) -> Seq<char> {
    seq!['<', '/'] + n.tag + seq!['>']
}

/// What a node serializes as: its opening tag, then — unless it is void —
/// its children in append order and its closing tag. Child indices out of
/// a well-formed arena's reach render as nothing; a well-formed document
/// never has any.
pub open spec fn render_node(doc: Seq<NodeView>, i: int) -> Seq<char>
    decreases doc.len() - i, 1int, 0int,
{
    if 0 <= i < doc.len() {
        if doc[i].void {
            open_tag(doc[i])
        } else {
            open_tag(doc[i]) + render_children(doc, i, doc[i].children) + close_tag(doc[i])
        }
    } else {
        Seq::empty()
    }
}

/// What one child of node `i` serializes as.
pub open spec fn render_child(doc: Seq<NodeView>, i: int, c: ChildView) -> Seq<char>
    decreases doc.len() - i, 0int, 0int,
{
    match c {
        ChildView::Element(j) => if i < j < doc.len() {
            render_node(doc, j)
        } else {
            Seq::empty()
        },
        ChildView::Text(s) => escape_text(s),
        ChildView::Raw(s) => s,
    }
}

/// What a child list of node `i` serializes as: each child's rendering,
/// concatenated in list order.
pub open spec fn render_children(doc: Seq<NodeView>, i: int, cs: Seq<ChildView>) -> Seq<char>
    decreases doc.len() - i, 0int, cs.len(),
{
    if cs.len() == 0 {
        Seq::empty()
    } else {
        render_child(doc, i, cs[0]) + render_children(doc, i, cs.skip(1))
    }
}

/// The document's leading doctype declaration.
pub open spec fn doctype() -> Seq<char> {
    seq!['<', '!', 'D', 'O', 'C', 'T', 'Y', 'P', 'E', ' ', 'h', 't', 'm', 'l', '>', '\n']
}

/// What a whole document serializes as: the doctype, then the root node.
pub open spec fn render_document(doc: Seq<NodeView>) -> Seq<char> {
    doctype() + render_node(doc, 0)
}

/// Append order, stated of child lists: the children of a node serialize
/// as the concatenation of their renderings in exactly the order they
/// stand in the list, so rendering a longer list is rendering the shorter
/// list then the added children.
pub proof fn lemma_render_children_append(
    doc: Seq<NodeView>,
    i: int,
    cs1: Seq<ChildView>,
    cs2: Seq<ChildView>,
)
    ensures
        render_children(doc, i, cs1 + cs2)
            == render_children(doc, i, cs1) + render_children(doc, i, cs2),
    decreases cs1.len(),
{
    let whole = cs1 + cs2;
    if cs1.len() == 0 {
        assert(whole =~= cs2);
        assert(render_children(doc, i, cs1) =~= Seq::<char>::empty());
        assert(Seq::<char>::empty() + render_children(doc, i, cs2)
            =~= render_children(doc, i, cs2));
    } else {
        assert(whole[0] == cs1[0]);
        assert(whole.skip(1) =~= cs1.skip(1) + cs2);
        lemma_render_children_append(doc, i, cs1.skip(1), cs2);
        assert(render_child(doc, i, cs1[0]) + (render_children(doc, i, cs1.skip(1))
            + render_children(doc, i, cs2)) =~= (render_child(doc, i, cs1[0])
            + render_children(doc, i, cs1.skip(1))) + render_children(doc, i, cs2));
    }
}

/// Append order, stated of one appended child: after appending a child to
/// a node, the node's children render as before with the new child's
/// rendering last.
pub proof fn lemma_render_children_push(doc: Seq<NodeView>, i: int, cs: Seq<ChildView>, c: ChildView)
    ensures
        render_children(doc, i, cs.push(c))
            == render_children(doc, i, cs) + render_child(doc, i, c),
{
    assert(cs.push(c) =~= cs + seq![c]);
    lemma_render_children_append(doc, i, cs, seq![c]);
    assert(seq![c].skip(1) =~= Seq::<ChildView>::empty());
    assert(render_children(doc, i, seq![c].skip(1)) =~= Seq::<char>::empty());
    assert(render_child(doc, i, c) + Seq::<char>::empty() =~= render_child(doc, i, c));
}

/// One HTML document under construction: the arena of its nodes. Node
/// zero is the root. Handles into the arena are plain indices; a handle
/// stays valid and mutable until the document is dropped. Serialization
/// reads the tree without consuming it and is idempotent.
pub struct Document {
    nodes: Vec<NodeData>,
}

impl View for Document {
    type V = Seq<NodeView>;

    closed spec fn view(&self) -> Seq<NodeView> {
        self.nodes@.map_values(|n: NodeData| n@)
    }
}

impl Document {
    /// Whether the arena is well-formed; every method keeps it so.
    pub open spec fn wf(&self) -> bool {
        doc_wf(self@)
    }

    /// A fresh document: one root element with the given tag, nothing
    /// else.
    pub fn new(root_tag: &str) -> (doc: Document)
        ensures
            doc.wf(),
            doc@.len() == 1,
            doc@[0].tag == root_tag@,
            doc@[0].attrs == Seq::<(Seq<char>, Seq<char>)>::empty(),
            doc@[0].children == Seq::<ChildView>::empty(),
            !doc@[0].void,
    {
        let root = NodeData {
            tag: String::from_str(root_tag),
            attrs: Vec::new(),
            children: Vec::new(),
            void: false,
        };
        let mut nodes: Vec<NodeData> = Vec::new();
        nodes.push(root);
        let doc = Document { nodes };
        proof {
            assert(doc@ =~= seq![doc.nodes@[0]@]);
            assert(doc@[0].attrs =~= Seq::<(Seq<char>, Seq<char>)>::empty());
            assert(doc@[0].children =~= Seq::<ChildView>::empty());
        }
        doc
    }

    /// The handle of the document's root node.
    pub fn root(&self) -> (r: usize)
        ensures
            r == 0,
    {
        0
    }

    /// How many nodes the document holds; every index below this is a
    /// valid handle.
    pub fn len(&self) -> (r: usize)
        ensures
            r == self@.len(),
    {
        self.nodes.len()
    }

    /// Appends a fresh, empty child element to a node and hands back the
    /// child's handle. Every other node is untouched, and every earlier
    /// handle keeps pointing at its node.
    pub fn child(&mut self, parent: usize, tag: &str) -> (c: usize)
        requires
            old(self).wf(),
            parent < old(self)@.len(),
            !old(self)@[parent as int].void,
        ensures
            final(self).wf(),
            c == old(self)@.len(),
            final(self)@.len() == old(self)@.len() + 1,
            final(self)@[c as int].tag == tag@,
            final(self)@[c as int].attrs == Seq::<(Seq<char>, Seq<char>)>::empty(),
            final(self)@[c as int].children == Seq::<ChildView>::empty(),
            !final(self)@[c as int].void,
            final(self)@[parent as int].children == old(self)@[parent as int].children.push(
                ChildView::Element(c as int),
            ),
            final(self)@[parent as int].tag == old(self)@[parent as int].tag,
            final(self)@[parent as int].attrs == old(self)@[parent as int].attrs,
            final(self)@[parent as int].void == old(self)@[parent as int].void,
            forall|k: int|
                0 <= k < old(self)@.len() && k != parent ==> final(self)@[k] == old(self)@[k],
    {
        self.push_child_node(parent, tag, false)
    }

    /// Appends a fresh void child element — one that never takes children
    /// and serializes without a closing tag — and hands back its handle.
    pub fn void_child(&mut self, parent: usize, tag: &str) -> (c: usize)
        requires
            old(self).wf(),
            parent < old(self)@.len(),
            !old(self)@[parent as int].void,
        ensures
            final(self).wf(),
            c == old(self)@.len(),
            final(self)@.len() == old(self)@.len() + 1,
            final(self)@[c as int].tag == tag@,
            final(self)@[c as int].attrs == Seq::<(Seq<char>, Seq<char>)>::empty(),
            final(self)@[c as int].children == Seq::<ChildView>::empty(),
            final(self)@[c as int].void,
            final(self)@[parent as int].children == old(self)@[parent as int].children.push(
                ChildView::Element(c as int),
            ),
            final(self)@[parent as int].tag == old(self)@[parent as int].tag,
            final(self)@[parent as int].attrs == old(self)@[parent as int].attrs,
            final(self)@[parent as int].void == old(self)@[parent as int].void,
            forall|k: int|
                0 <= k < old(self)@.len() && k != parent ==> final(self)@[k] == old(self)@[k],
    {
        self.push_child_node(parent, tag, true)
    }

    /// Shared body of `child` and `void_child`.
    fn push_child_node(&mut self, parent: usize, tag: &str, void: bool) -> (c: usize)
        requires
            old(self).wf(),
            parent < old(self)@.len(),
            !old(self)@[parent as int].void,
        ensures
            final(self).wf(),
            c == old(self)@.len(),
            final(self)@.len() == old(self)@.len() + 1,
            final(self)@[c as int].tag == tag@,
            final(self)@[c as int].attrs == Seq::<(Seq<char>, Seq<char>)>::empty(),
            final(self)@[c as int].children == Seq::<ChildView>::empty(),
            final(self)@[c as int].void == void,
            final(self)@[parent as int].children == old(self)@[parent as int].children.push(
                ChildView::Element(c as int),
            ),
            final(self)@[parent as int].tag == old(self)@[parent as int].tag,
            final(self)@[parent as int].attrs == old(self)@[parent as int].attrs,
            final(self)@[parent as int].void == old(self)@[parent as int].void,
            forall|k: int|
                0 <= k < old(self)@.len() && k != parent ==> final(self)@[k] == old(self)@[k],
    {
        let ghost before = self@;
        let c = self.nodes.len();
        let node = NodeData {
            tag: String::from_str(tag),
            attrs: Vec::new(),
            children: Vec::new(),
            void,
        };
        self.nodes.push(node);
        let parent_node = &mut self.nodes[parent];
        parent_node.children.push(Child::Element(c));
        proof {
            let after = self@;
            assert(after[c as int].attrs =~= Seq::<(Seq<char>, Seq<char>)>::empty());
            assert(after[c as int].children =~= Seq::<ChildView>::empty());
            assert(after[parent as int].children
                =~= before[parent as int].children.push(ChildView::Element(c as int)));
            assert(after[parent as int].attrs =~= before[parent as int].attrs);
            assert forall|k: int| 0 <= k < before.len() && k != parent implies
                after[k] == before[k] by {}
            assert forall|i: int| 0 <= i < after.len() implies node_wf(after, i) by {
                if i == parent {
                    let cs = after[i].children;
                    assert forall|k: int| 0 <= k < cs.len() implies
                        child_in_range(after, i, #[trigger] cs[k]) by {
                        if k < cs.len() - 1 {
                            assert(cs[k] == before[i].children[k]);
                            assert(node_wf(before, i));
                        }
                    }
                } else if i < before.len() {
                    assert(node_wf(before, i));
                    assert(after[i] == before[i]);
                    assert forall|k: int| 0 <= k < after[i].children.len() implies
                        child_in_range(after, i, #[trigger] after[i].children[k]) by {
                        assert(after[i].children[k] == before[i].children[k]);
                    }
                }
            }
        }
        c
    }

    /// Appends one attribute to a node: a structured name-value pair,
    /// serialized later as ` name="value"` with the value escaped.
    /// Nothing else about the document changes.
    pub fn attr(&mut self, node: usize, name: &str, value: &str)
        requires
            old(self).wf(),
            node < old(self)@.len(),
        ensures
            final(self).wf(),
            final(self)@.len() == old(self)@.len(),
            final(self)@[node as int].attrs == old(self)@[node as int].attrs.push(
                (name@, value@),
            ),
            final(self)@[node as int].tag == old(self)@[node as int].tag,
            final(self)@[node as int].children == old(self)@[node as int].children,
            final(self)@[node as int].void == old(self)@[node as int].void,
            forall|k: int|
                0 <= k < old(self)@.len() && k != node ==> final(self)@[k] == old(self)@[k],
    {
        let ghost before = self@;
        let node_ref = &mut self.nodes[node];
        node_ref.attrs.push((String::from_str(name), String::from_str(value)));
        proof {
            let after = self@;
            assert(after[node as int].attrs
                =~= before[node as int].attrs.push((name@, value@)));
            assert(after[node as int].children =~= before[node as int].children);
            assert forall|k: int| 0 <= k < before.len() && k != node implies
                after[k] == before[k] by {}
            assert forall|i: int| 0 <= i < after.len() implies node_wf(after, i) by {
                assert(node_wf(before, i));
                assert(after[i].children == before[i].children);
                assert(after[i].void == before[i].void);
            }
        }
    }

    /// Appends a text child to a node; the text is escaped when the
    /// document serializes. Nothing else about the document changes.
    pub fn text(&mut self, node: usize, content: &str)
        requires
            old(self).wf(),
            node < old(self)@.len(),
            !old(self)@[node as int].void,
        ensures
            final(self).wf(),
            final(self)@.len() == old(self)@.len(),
            final(self)@[node as int].children == old(self)@[node as int].children.push(
                ChildView::Text(content@),
            ),
            final(self)@[node as int].tag == old(self)@[node as int].tag,
            final(self)@[node as int].attrs == old(self)@[node as int].attrs,
            final(self)@[node as int].void == old(self)@[node as int].void,
            forall|k: int|
                0 <= k < old(self)@.len() && k != node ==> final(self)@[k] == old(self)@[k],
    {
        self.push_leaf(node, Child::Text(String::from_str(content)));
    }

    /// Appends a raw HTML child to a node; the content is emitted
    /// verbatim, for fragments that are deliberately already HTML.
    /// Nothing else about the document changes.
    pub fn raw(&mut self, node: usize, content: &str)
        requires
            old(self).wf(),
            node < old(self)@.len(),
            !old(self)@[node as int].void,
        ensures
            final(self).wf(),
            final(self)@.len() == old(self)@.len(),
            final(self)@[node as int].children == old(self)@[node as int].children.push(
                ChildView::Raw(content@),
            ),
            final(self)@[node as int].tag == old(self)@[node as int].tag,
            final(self)@[node as int].attrs == old(self)@[node as int].attrs,
            final(self)@[node as int].void == old(self)@[node as int].void,
            forall|k: int|
                0 <= k < old(self)@.len() && k != node ==> final(self)@[k] == old(self)@[k],
    {
        self.push_leaf(node, Child::Raw(String::from_str(content)));
    }

    /// Shared body of `text` and `raw`.
    fn push_leaf(&mut self, node: usize, c: Child)
        requires
            old(self).wf(),
            node < old(self)@.len(),
            !old(self)@[node as int].void,
            !(c is Element),
        ensures
            final(self).wf(),
            final(self)@.len() == old(self)@.len(),
            final(self)@[node as int].children == old(self)@[node as int].children.push(c@),
            final(self)@[node as int].tag == old(self)@[node as int].tag,
            final(self)@[node as int].attrs == old(self)@[node as int].attrs,
            final(self)@[node as int].void == old(self)@[node as int].void,
            forall|k: int|
                0 <= k < old(self)@.len() && k != node ==> final(self)@[k] == old(self)@[k],
    {
        let ghost before = self@;
        let ghost cv = c@;
        let node_ref = &mut self.nodes[node];
        node_ref.children.push(c);
        proof {
            let after = self@;
            assert(after[node as int].children =~= before[node as int].children.push(cv));
            assert(after[node as int].attrs =~= before[node as int].attrs);
            assert forall|k: int| 0 <= k < before.len() && k != node implies
                after[k] == before[k] by {}
            assert forall|i: int| 0 <= i < after.len() implies node_wf(after, i) by {
                assert(node_wf(before, i));
                if i == node {
                    let cs = after[i].children;
                    assert forall|k: int| 0 <= k < cs.len() implies
                        child_in_range(after, i, #[trigger] cs[k]) by {
                        if k < cs.len() - 1 {
                            assert(cs[k] == before[i].children[k]);
                        }
                    }
                } else {
                    assert(after[i] == before[i]);
                    assert forall|k: int| 0 <= k < after[i].children.len() implies
                        child_in_range(after, i, #[trigger] after[i].children[k]) by {
                        assert(after[i].children[k] == before[i].children[k]);
                    }
                }
            }
        }
    }

    /// Appends node `i`'s serialization to `out`.
    fn render_node_into(&self, i: usize, out: &mut String)
        requires
            self.wf(),
            i < self@.len(),
        ensures
            final(out)@ == old(out)@ + render_node(self@, i as int),
        decreases self@.len() - i,
    {
        let ghost doc = self@;
        let ghost entry = out@;
        let node = &self.nodes[i];
        let ghost nv = doc[i as int];
        proof {
            assert(nv == node@);
        }
        push_char(out, '<');
        out.append(node.tag.as_str());
        let ghost av = nv.attrs;
        let mut a: usize = 0;
        proof {
            assert(av.skip(0) =~= av);
            assert(out@ + render_attrs(av)
                =~= entry + seq!['<'] + nv.tag + render_attrs(av));
        }
        while a < node.attrs.len()
            invariant
                a <= node.attrs.len(),
                nv == node@,
                av == nv.attrs,
                out@ + render_attrs(av.skip(a as int))
                    == entry + seq!['<'] + nv.tag + render_attrs(av),
            decreases node.attrs.len() - a,
        {
            proof {
                assert(av.skip(a as int)[0] == av[a as int]);
                assert(av.skip(a as int).skip(1) =~= av.skip(a + 1));
                assert(av[a as int] == (node.attrs@[a as int].0@, node.attrs@[a as int].1@));
            }
            push_char(out, ' ');
            out.append(node.attrs[a].0.as_str());
            push_char(out, '=');
            push_char(out, '"');
            escape_attr_into(node.attrs[a].1.as_str(), out);
            push_char(out, '"');
            proof {
                let piece = seq![' '] + av[a as int].0 + seq!['=', '"']
                    + escape_attr(av[a as int].1) + seq!['"'];
                assert(render_attrs(av.skip(a as int))
                    == piece + render_attrs(av.skip(a + 1)));
                assert(out@ + render_attrs(av.skip(a + 1))
                    =~= entry + seq!['<'] + nv.tag + render_attrs(av));
            }
            a = a + 1;
        }
        proof {
            assert(av.skip(node.attrs@.len() as int) =~= Seq::<(Seq<char>, Seq<char>)>::empty());
            assert(render_attrs(av.skip(node.attrs@.len() as int)) == Seq::<char>::empty());
            assert(out@ + Seq::<char>::empty() =~= out@);
        }
        push_char(out, '>');
        proof {
            assert(out@ =~= entry + open_tag(nv));
        }
        if node.void {
            proof {
                assert(render_node(doc, i as int) == open_tag(nv));
            }
            return ;
        }
        let ghost cs = nv.children;
        let mut k: usize = 0;
        proof {
            assert(cs.skip(0) =~= cs);
        }
        while k < node.children.len()
            invariant
                self.wf(),
                i < self@.len(),
                doc == self@,
                k <= node.children.len(),
                nv == node@,
                nv == doc[i as int],
                cs == nv.children,
                out@ + render_children(doc, i as int, cs.skip(k as int))
                    == entry + open_tag(nv) + render_children(doc, i as int, cs),
            decreases node.children.len() - k,
        {
            proof {
                assert(cs.skip(k as int)[0] == cs[k as int]);
                assert(cs.skip(k as int).skip(1) =~= cs.skip(k + 1));
                assert(cs[k as int] == node.children@[k as int]@);
                assert(node_wf(doc, i as int));
                assert(child_in_range(doc, i as int, cs[k as int]));
            }
            match &node.children[k] {
                Child::Element(j) => {
                    let j = *j;
                    proof {
                        assert(cs[k as int] == ChildView::Element(j as int));
                        assert(i < j < doc.len());
                        assert(render_child(doc, i as int, cs[k as int])
                            == render_node(doc, j as int));
                    }
                    self.render_node_into(j, out);
                },
                Child::Text(s) => {
                    escape_text_into(s.as_str(), out);
                },
                Child::Raw(s) => {
                    out.append(s.as_str());
                },
            }
            proof {
                assert(render_children(doc, i as int, cs.skip(k as int))
                    == render_child(doc, i as int, cs[k as int])
                        + render_children(doc, i as int, cs.skip(k + 1)));
                assert(out@ + render_children(doc, i as int, cs.skip(k + 1))
                    =~= entry + open_tag(nv) + render_children(doc, i as int, cs));
            }
            k = k + 1;
        }
        proof {
            assert(cs.skip(node.children@.len() as int) =~= Seq::<ChildView>::empty());
            assert(out@ =~= entry + open_tag(nv) + render_children(doc, i as int, cs));
        }
        push_char(out, '<');
        push_char(out, '/');
        out.append(node.tag.as_str());
        push_char(out, '>');
        proof {
            assert(out@ =~= entry + (open_tag(nv) + render_children(doc, i as int, cs)
                + close_tag(nv)));
        }
    }

    /// Serializes the whole document: the doctype declaration, then the
    /// tree from the root. Reading the tree consumes nothing, so
    /// serializing again yields the same text.
    pub fn serialize(&self) -> (r: String)
        requires
            self.wf(),
        ensures
            r@ == render_document(self@),
    {
        let mut out = String::new();
        push_char(&mut out, '<');
        push_char(&mut out, '!');
        push_char(&mut out, 'D');
        push_char(&mut out, 'O');
        push_char(&mut out, 'C');
        push_char(&mut out, 'T');
        push_char(&mut out, 'Y');
        push_char(&mut out, 'P');
        push_char(&mut out, 'E');
        push_char(&mut out, ' ');
        push_char(&mut out, 'h');
        push_char(&mut out, 't');
        push_char(&mut out, 'm');
        push_char(&mut out, 'l');
        push_char(&mut out, '>');
        push_char(&mut out, '\n');
        proof {
            assert(out@ =~= doctype());
        }
        self.render_node_into(0, &mut out);
        out
    }
}

/// Appends `s` to `out` with `&` and `<` escaped.
fn escape_text_into(s: &str, out: &mut String)
    ensures
        final(out)@ == old(out)@ + escape_text(s@),
{
    let ghost entry = out@;
    let n = s.unicode_len();
    let mut i: usize = 0;
    proof {
        assert(s@.skip(0) =~= s@);
        assert(out@ + escape_text(s@) =~= entry + escape_text(s@));
    }
    while i < n
        invariant
            n == s@.len(),
            i <= n,
            out@ + escape_text(s@.skip(i as int)) == entry + escape_text(s@),
        decreases n - i,
    {
        proof {
            assert(s@.skip(i as int)[0] == s@[i as int]);
            assert(s@.skip(i as int).skip(1) =~= s@.skip(i + 1));
        }
        let c = s.get_char(i);
        if c == '&' {
            push_char(out, '&');
            push_char(out, 'a');
            push_char(out, 'm');
            push_char(out, 'p');
            push_char(out, ';');
        } else if c == '<' {
            push_char(out, '&');
            push_char(out, 'l');
            push_char(out, 't');
            push_char(out, ';');
        } else {
            push_char(out, c);
        }
        proof {
            assert(out@ + escape_text(s@.skip(i + 1)) =~= entry + escape_text(s@));
        }
        i = i + 1;
    }
    proof {
        assert(s@.skip(n as int) =~= Seq::<char>::empty());
        assert(out@ + Seq::<char>::empty() =~= out@);
    }
}

/// Appends `s` to `out` with `&`, `<` and the double quote escaped.
fn escape_attr_into(s: &str, out: &mut String)
    ensures
        final(out)@ == old(out)@ + escape_attr(s@),
{
    let ghost entry = out@;
    let n = s.unicode_len();
    let mut i: usize = 0;
    proof {
        assert(s@.skip(0) =~= s@);
        assert(out@ + escape_attr(s@) =~= entry + escape_attr(s@));
    }
    while i < n
        invariant
            n == s@.len(),
            i <= n,
            out@ + escape_attr(s@.skip(i as int)) == entry + escape_attr(s@),
        decreases n - i,
    {
        proof {
            assert(s@.skip(i as int)[0] == s@[i as int]);
            assert(s@.skip(i as int).skip(1) =~= s@.skip(i + 1));
        }
        let c = s.get_char(i);
        if c == '&' {
            push_char(out, '&');
            push_char(out, 'a');
            push_char(out, 'm');
            push_char(out, 'p');
            push_char(out, ';');
        } else if c == '<' {
            push_char(out, '&');
            push_char(out, 'l');
            push_char(out, 't');
            push_char(out, ';');
        } else if c == '"' {
            push_char(out, '&');
            push_char(out, 'q');
            push_char(out, 'u');
            push_char(out, 'o');
            push_char(out, 't');
            push_char(out, ';');
        } else {
            push_char(out, c);
        }
        proof {
            assert(out@ + escape_attr(s@.skip(i + 1)) =~= entry + escape_attr(s@));
        }
        i = i + 1;
    }
    proof {
        assert(s@.skip(n as int) =~= Seq::<char>::empty());
        assert(out@ + Seq::<char>::empty() =~= out@);
    }
}

} // verus!
