//! Verified page construction: the one parameterized scaffold every
//! output page shares (title, stylesheet set, navigation links), and the
//! page for a single publication. Each builder call is pinned down to the
//! exact node arena it produces, so what serializes is known character by
//! character from the inputs.

use vstd::prelude::*;
use vstd::string::*;

use crate::date::{date_valid, display_date, spec_date_display};
use crate::html::{ChildView, Document, NodeView};
use crate::publication::{Publication, PublicationView};

verus! {

/// A list item holding one tag's text.
pub open spec fn tag_item_view(tag_text: Seq<char>) -> NodeView {
    NodeView {
        tag: "li"@,
        attrs: Seq::empty(),
        children: seq![ChildView::Text(tag_text)],
        void: false,
    }
}

/// What every output page shares: its title text, the stylesheets its
/// head links, and the navigation links its body opens with.
pub struct PageConfig {
    pub title: String,
    pub stylesheets: Vec<String>,
    pub nav_links: Vec<(String, String)>,
}

/// A page configuration as mathematical values: title, stylesheet
/// addresses, and navigation links as label-address pairs.
pub struct PageConfigView {
    pub title: Seq<char>,
    pub stylesheets: Seq<Seq<char>>,
    pub nav_links: Seq<(Seq<char>, Seq<char>)>,
}

impl View for PageConfig {
    type V = PageConfigView;

    open spec fn view(&self) -> PageConfigView {
        PageConfigView {
            title: self.title@,
            stylesheets: self.stylesheets@.map_values(|s: String| s@),
            nav_links: self.nav_links@.map_values(|l: (String, String)| (l.0@, l.1@)),
        }
    }
}

/// A void stylesheet link element.
pub open spec fn stylesheet_link_view(href: Seq<char>) -> NodeView {
    NodeView {
        tag: "link"@,
        attrs: seq![("rel"@, "stylesheet"@), ("href"@, href)],
        children: Seq::empty(),
        void: true,
    }
}

/// A navigation anchor holding its label as text.
pub open spec fn nav_link_view(label: Seq<char>, href: Seq<char>) -> NodeView {
    NodeView {
        tag: "a"@,
        attrs: seq![("href"@, href)],
        children: seq![ChildView::Text(label)],
        void: false,
    }
}

/// The arena of a scaffolded page: an `html` element holding a head —
/// charset and viewport declarations, the title, one stylesheet link per
/// configured stylesheet, in order — and a body opening with a `nav` of
/// the configured links, in order. The body is otherwise empty: content
/// is appended through its handle afterwards.
pub open spec fn scaffold_view(cfg: PageConfigView) -> Seq<NodeView> {
    let s = cfg.stylesheets.len() as int;
    seq![
        NodeView {
            tag: "html"@,
            attrs: seq![("lang"@, "en"@)],
            children: seq![ChildView::Element(1), ChildView::Element(5 + s)],
            void: false,
        },
        NodeView {
            tag: "head"@,
            attrs: Seq::empty(),
            children: seq![ChildView::Element(2), ChildView::Element(3), ChildView::Element(4)]
                + Seq::new(cfg.stylesheets.len(), |k: int| ChildView::Element(5 + k)),
            void: false,
        },
        NodeView {
            tag: "meta"@,
            attrs: seq![("charset"@, "utf-8"@)],
            children: Seq::empty(),
            void: true,
        },
        NodeView {
            tag: "meta"@,
            attrs: seq![
                ("name"@, "viewport"@),
                ("content"@, "width=device-width,initial-scale=1.0"@),
            ],
            children: Seq::empty(),
            void: true,
        },
        NodeView {
            tag: "title"@,
            attrs: Seq::empty(),
            children: seq![ChildView::Text(cfg.title)],
            void: false,
        },
    ] + Seq::new(cfg.stylesheets.len(), |k: int| stylesheet_link_view(cfg.stylesheets[k]))
        + seq![
        NodeView {
            tag: "body"@,
            attrs: Seq::empty(),
            children: seq![ChildView::Element(6 + s)],
            void: false,
        },
        NodeView {
            tag: "nav"@,
            attrs: Seq::empty(),
            children: Seq::new(cfg.nav_links.len(), |k: int| ChildView::Element(7 + s + k)),
            void: false,
        },
    ] + Seq::new(cfg.nav_links.len(), |k: int| nav_link_view(cfg.nav_links[k].0, cfg.nav_links[k].1))
}

/// Builds the shared page scaffold and hands back the document with the
/// body's handle, for the caller to fill with the page's own content.
pub fn scaffold(cfg: &PageConfig) -> (r: (Document, usize))
    ensures
        r.0.wf(),
        r.0@ == scaffold_view(cfg@),
        r.1 == 5 + cfg@.stylesheets.len(),
        r.1 < r.0@.len(),
        !r.0@[r.1 as int].void,
{
    let ghost cv = cfg@;
    let ghost expected = scaffold_view(cv);
    let mut doc = Document::new("html");
    let root = doc.root();
    doc.attr(root, "lang", "en");
    let head = doc.child(root, "head");
    let meta_charset = doc.void_child(head, "meta");
    doc.attr(meta_charset, "charset", "utf-8");
    let meta_viewport = doc.void_child(head, "meta");
    doc.attr(meta_viewport, "name", "viewport");
    doc.attr(meta_viewport, "content", "width=device-width,initial-scale=1.0");
    let title = doc.child(head, "title");
    doc.text(title, cfg.title.as_str());
    let ghost fixed_head = doc@;
    let ghost css = cv.stylesheets;
    let mut k: usize = 0;
    proof {
        assert(css.len() == cfg.stylesheets@.len());
        assert(doc@[1].children =~= seq![
            ChildView::Element(2),
            ChildView::Element(3),
            ChildView::Element(4),
        ] + Seq::new(0nat, |j: int| ChildView::Element(5 + j)));
    }
    while k < cfg.stylesheets.len()
        invariant
            k <= cfg.stylesheets.len(),
            css == cfg.stylesheets@.map_values(|s: String| s@),
            doc.wf(),
            doc@.len() == 5 + k,
            fixed_head.len() == 5,
            doc@[0] =~~= fixed_head[0],
            doc@[1].tag == fixed_head[1].tag,
            doc@[1].attrs == fixed_head[1].attrs,
            !doc@[1].void,
            doc@[1].children =~= seq![
                ChildView::Element(2),
                ChildView::Element(3),
                ChildView::Element(4),
            ] + Seq::new(k as nat, |j: int| ChildView::Element(5 + j)),
            doc@[2] =~~= fixed_head[2],
            doc@[3] =~~= fixed_head[3],
            doc@[4] =~~= fixed_head[4],
            forall|j: int| 0 <= j < k ==> doc@[5 + j] =~~= stylesheet_link_view(css[j]),
            head == 1,
        decreases cfg.stylesheets.len() - k,
    {
        let ghost before = doc@;
        let link = doc.void_child(head, "link");
        doc.attr(link, "rel", "stylesheet");
        doc.attr(link, "href", cfg.stylesheets[k].as_str());
        proof {
            assert(link == 5 + k);
            assert(doc@[link as int].attrs
                =~= Seq::<(Seq<char>, Seq<char>)>::empty().push(("rel"@, "stylesheet"@)).push(
                ("href"@, css[k as int]),
            ));
            assert(doc@[link as int] =~~= stylesheet_link_view(css[k as int]));
            assert(doc@[1].children =~= seq![
                ChildView::Element(2),
                ChildView::Element(3),
                ChildView::Element(4),
            ] + Seq::new((k + 1) as nat, |j: int| ChildView::Element(5 + j)));
            assert forall|j: int| 0 <= j < k implies
                doc@[5 + j] =~~= stylesheet_link_view(css[j]) by {
                assert(doc@[5 + j] == before[5 + j]);
            }
        }
        k = k + 1;
    }
    let ghost css_done = doc@;
    let ghost s = css.len() as int;
    let body = doc.child(root, "body");
    let ghost after_body = doc@;
    let nav = doc.child(body, "nav");
    let ghost fixed_body = doc@;
    let ghost links = cv.nav_links;
    let mut k: usize = 0;
    proof {
        assert(body == 5 + s);
        assert(nav == 6 + s);
        assert(doc@[nav as int].children
            =~= Seq::new(0nat, |j: int| ChildView::Element(7 + s + j)));
        // The fixed prefix, as the final arena will hold it.
        assert(after_body[0].children =~= css_done[0].children.push(ChildView::Element(5 + s)));
        assert(fixed_body[0].children
            =~= seq![ChildView::Element(1), ChildView::Element(5 + s)]);
        assert(fixed_body[0] =~~= expected[0]);
        assert(fixed_body[1] =~~= after_body[1]);
        assert(after_body[1] =~~= css_done[1]);
        assert(fixed_body[1] =~~= expected[1]);
        assert(fixed_body[2] =~~= expected[2]);
        assert(fixed_body[3] =~~= expected[3]);
        assert(fixed_body[4] =~~= expected[4]);
        assert forall|j: int| 0 <= j < s implies
            fixed_body[5 + j] =~~= stylesheet_link_view(css[j]) by {
            assert(after_body[5 + j] == css_done[5 + j]);
            assert(fixed_body[5 + j] == after_body[5 + j]);
            assert(css_done[5 + j] =~~= stylesheet_link_view(css[j]));
        }
        assert(fixed_body[body as int].children =~= seq![ChildView::Element(6 + s)]);
        assert(fixed_body[body as int] =~~= expected[body as int]);
    }
    while k < cfg.nav_links.len()
        invariant
            k <= cfg.nav_links.len(),
            links == cfg.nav_links@.map_values(|l: (String, String)| (l.0@, l.1@)),
            doc.wf(),
            s == css.len() as int,
            body == 5 + s,
            nav == 6 + s,
            fixed_body.len() == 7 + s,
            doc@.len() == 7 + s + k,
            doc@.subrange(0, 6 + s) =~= fixed_body.subrange(0, 6 + s),
            doc@[nav as int].tag == fixed_body[nav as int].tag,
            doc@[nav as int].attrs == fixed_body[nav as int].attrs,
            !doc@[nav as int].void,
            doc@[nav as int].children
                =~= Seq::new(k as nat, |j: int| ChildView::Element(7 + s + j)),
            forall|j: int| 0 <= j < k
                ==> doc@[7 + s + j] =~~= nav_link_view(links[j].0, links[j].1),
        decreases cfg.nav_links.len() - k,
    {
        let ghost before = doc@;
        let a = doc.child(nav, "a");
        doc.attr(a, "href", cfg.nav_links[k].1.as_str());
        doc.text(a, cfg.nav_links[k].0.as_str());
        proof {
            assert(a == 7 + s + k);
            assert(links[k as int] == (cfg.nav_links@[k as int].0@, cfg.nav_links@[k as int].1@));
            assert(doc@[a as int] =~~= nav_link_view(links[k as int].0, links[k as int].1));
            assert(doc@[nav as int].children
                =~= Seq::new((k + 1) as nat, |j: int| ChildView::Element(7 + s + j)));
            assert(doc@.subrange(0, 6 + s) =~= before.subrange(0, 6 + s));
            assert forall|j: int| 0 <= j < k implies
                doc@[7 + s + j] =~~= nav_link_view(links[j].0, links[j].1) by {
                assert(doc@[7 + s + j] == before[7 + s + j]);
            }
        }
        k = k + 1;
    }
    proof {
        assert(doc@.len() == expected.len());
        assert forall|i: int| 0 <= i < doc@.len() implies doc@[i] =~~= expected[i] by {
            if i < 6 + s {
                assert(doc@[i] == doc@.subrange(0, 6 + s)[i]);
                assert(fixed_body.subrange(0, 6 + s)[i] == fixed_body[i]);
            }
            if i < 5 {
                assert(fixed_body[i] =~~= expected[i]);
            } else if i < 5 + s {
                assert(fixed_body[i] =~~= stylesheet_link_view(css[i - 5]));
                assert(expected[i] == stylesheet_link_view(cv.stylesheets[i - 5]));
            } else if i == 5 + s {
                assert(fixed_body[i] =~~= expected[i]);
            } else if i == 6 + s {
                assert(doc@[i].children
                    =~= Seq::new(cv.nav_links.len(), |j: int| ChildView::Element(7 + s + j)));
            } else {
                assert(doc@[i] =~~= nav_link_view(links[i - 7 - s].0, links[i - 7 - s].1));
                assert(expected[i]
                    == nav_link_view(cv.nav_links[i - 7 - s].0, cv.nav_links[i - 7 - s].1));
            }
        }
        assert(doc@ =~~= expected);
    }
    (doc, body)
}


/// The arena of a publication's page: the shared scaffold for the
/// page's configuration, whose body continues with the publication's
/// title as a heading, the date, the rendered markdown verbatim, one
/// list item per tag in tag order, and a footer.
pub open spec fn publication_page_view(
    cv: PageConfigView,
    pv: PublicationView,
    body_html: Seq<char>,
) -> Seq<NodeView> {
    let base = scaffold_view(cv);
    let n = base.len() as int;
    let b = 5 + cv.stylesheets.len() as int;
    base.update(
        b,
        NodeView {
            tag: base[b].tag,
            attrs: base[b].attrs,
            children: base[b].children + seq![
                ChildView::Element(n),
                ChildView::Element(n + 1),
                ChildView::Element(n + 2),
                ChildView::Element(n + 3),
                ChildView::Element(n + 4),
            ],
            void: base[b].void,
        },
    ) + seq![
        NodeView {
            tag: "h1"@,
            attrs: Seq::empty(),
            children: seq![ChildView::Text(pv.title)],
            void: false,
        },
        NodeView {
            tag: "h2"@,
            attrs: Seq::empty(),
            children: seq![ChildView::Text(spec_date_display(pv.date))],
            void: false,
        },
        NodeView {
            tag: "div"@,
            attrs: Seq::empty(),
            children: seq![ChildView::Raw(body_html)],
            void: false,
        },
        NodeView {
            tag: "ul"@,
            attrs: Seq::empty(),
            children: Seq::new(pv.tags.len(), |t: int| ChildView::Element(n + 5 + t)),
            void: false,
        },
        NodeView {
            tag: "footer"@,
            attrs: Seq::empty(),
            children: Seq::empty(),
            void: false,
        },
    ] + Seq::new(pv.tags.len(), |t: int| tag_item_view(pv.tags[t]))
}

/// Builds the page for one publication on the shared scaffold. The
/// markdown body arrives already rendered to HTML and is embedded
/// verbatim; title, date and tags are embedded as escaped text.
pub fn publication_page(cfg: &PageConfig, p: &Publication, body_html: &str) -> (doc: Document)
    requires
        date_valid(p@.date),
    ensures
        doc.wf(),
        doc@ == publication_page_view(cfg@, p@, body_html@),
{
    let ghost expected = publication_page_view(cfg@, p@, body_html@);
    let (mut doc, body) = scaffold(cfg);
    let ghost base = doc@;
    let n = doc.len();
    let h1 = doc.child(body, "h1");
    doc.text(h1, p.title.as_str());
    let h2 = doc.child(body, "h2");
    let date_text = display_date(&p.date);
    doc.text(h2, date_text.as_str());
    let div = doc.child(body, "div");
    doc.raw(div, body_html);
    let ul = doc.child(body, "ul");
    let footer = doc.child(body, "footer");
    let ghost fixed = doc@;
    let ghost tag_views = p.tags@.map_values(|t: String| t@);
    let mut t: usize = 0;
    proof {
        assert(tag_views.len() == p@.tags.len());
        assert(h1 == n && h2 == n + 1 && div == n + 2 && ul == n + 3 && footer == n + 4);
        assert(fixed.len() == n + 5);
        assert forall|k: int| 0 <= k < n && k != body implies fixed[k] == base[k] by {}
        assert(fixed[body as int].children =~= base[body as int].children + seq![
            ChildView::Element(n as int),
            ChildView::Element(n + 1),
            ChildView::Element(n + 2),
            ChildView::Element(n + 3),
            ChildView::Element(n + 4),
        ]);
        assert(fixed[body as int].tag == base[body as int].tag);
        assert(fixed[body as int].attrs == base[body as int].attrs);
        assert(fixed[body as int].void == base[body as int].void);
        assert(fixed[h1 as int] =~~= expected[h1 as int]);
        assert(fixed[h2 as int] =~~= expected[h2 as int]);
        assert(fixed[div as int] =~~= expected[div as int]);
        assert(fixed[footer as int] =~~= expected[footer as int]);
        assert(fixed[ul as int].tag == "ul"@);
        assert(fixed[ul as int].attrs =~= Seq::<(Seq<char>, Seq<char>)>::empty());
        assert(doc@[ul as int].children
            =~= Seq::new(0nat, |k: int| ChildView::Element(n + 5 + k)));
    }
    while t < p.tags.len()
        invariant
            t <= p.tags.len(),
            tag_views == p.tags@.map_values(|x: String| x@),
            doc.wf(),
            fixed.len() == n + 5,
            ul == n + 3,
            doc@.len() == n + 5 + t,
            doc@.subrange(0, n + 3) =~= fixed.subrange(0, n + 3),
            doc@[n + 4] == fixed[n + 4],
            doc@[ul as int].tag == fixed[ul as int].tag,
            doc@[ul as int].attrs == fixed[ul as int].attrs,
            !doc@[ul as int].void,
            doc@[ul as int].children
                =~= Seq::new(t as nat, |k: int| ChildView::Element(n + 5 + k)),
            forall|k: int| 0 <= k < t ==> doc@[n + 5 + k] =~~= tag_item_view(tag_views[k]),
        decreases p.tags.len() - t,
    {
        let ghost before = doc@;
        let li = doc.child(ul, "li");
        doc.text(li, p.tags[t].as_str());
        proof {
            assert(li == n + 5 + t);
            assert(doc@[li as int] =~~= tag_item_view(tag_views[t as int]));
            assert(doc@[ul as int].children
                =~= Seq::new((t + 1) as nat, |k: int| ChildView::Element(n + 5 + k)));
            assert(doc@.subrange(0, n + 3) =~= before.subrange(0, n + 3));
            assert(doc@[n + 4] == before[n + 4]);
            assert forall|k: int| 0 <= k < t implies
                doc@[n + 5 + k] =~~= tag_item_view(tag_views[k]) by {
                assert(doc@[n + 5 + k] == before[n + 5 + k]);
            }
        }
        t = t + 1;
    }
    proof {
        assert(doc@.len() == expected.len());
        assert forall|i: int| 0 <= i < doc@.len() implies doc@[i] =~~= expected[i] by {
            if i < n + 3 {
                assert(doc@[i] == doc@.subrange(0, n + 3)[i]);
                assert(fixed.subrange(0, n + 3)[i] == fixed[i]);
            }
            if i < n && i != body {
                assert(fixed[i] == base[i]);
                assert(expected[i] == base[i]);
            } else if i == body {
                assert(fixed[i] =~~= expected[i]);
            } else if i == n + 3 {
                assert(doc@[i].children
                    =~= Seq::new(p@.tags.len(), |k: int| ChildView::Element(n + 5 + k)));
            } else if i == n + 4 {
                assert(doc@[i] == fixed[i]);
            } else if i >= n + 5 {
                assert(doc@[i] =~~= tag_item_view(tag_views[i - n - 5]));
                assert(expected[i] == tag_item_view(p@.tags[i - n - 5]));
            }
        }
        assert(doc@ =~~= expected);
    }
    doc
}

} // verus!
