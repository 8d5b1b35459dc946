use markdown::mdast::{Heading, Image, Link, Node, Paragraph, Root, Text};
use vstd::prelude::*;
use vstd::string::*;

use crate::html_visitor::helpers::{
    attr_fragment, attr_map, closing_tag, all_spaces, collapse_spaces, details_attrs, join, kebab,
    lemma_attrs_html_least, lemma_attrs_html_single, lemma_join_push, lemma_key_le_reflexive,
    is_least_key, key_le, multiple_spaces_into_one, surround_by_tags,
    surround_by_tags_with_attributes, surround_by_tags_with_details, to_kebab_case, wrap,
    HTMLAttributesValues,
};

verus! {

/// The HTML fragment of a node.
pub open spec fn render(n: Node) -> Seq<char>
    decreases n,
{
    match n {
        Node::Root(r) => root_html(render_all(r.children@)),
        Node::Heading(h) => heading_html(h.depth, render_all(h.children@)),
        Node::Paragraph(p) => paragraph_html(render_all(p.children@)),
        Node::Link(l) => link_html(l.url@, render_all(l.children@)),
        Node::Image(i) => image_html(i.url@, i.alt@),
        Node::Text(t) => t.value@,
        _ => seq![],
    }
}

/// The fragments of a sequence of nodes, one for each.
pub open spec fn render_all(s: Seq<Node>) -> Seq<Seq<char>>
    decreases s,
{
    if s.len() == 0 {
        seq![]
    } else {
        render_all(s.drop_last()).push(render(s.last()))
    }
}

/// The children joined with newlines, inside an `article` element.
pub open spec fn root_html(parts: Seq<Seq<char>>) -> Seq<char> {
    wrap(join(parts, seq!['\n']), seq!['a', 'r', 't', 'i', 'c', 'l', 'e'])
}

pub open spec fn digit(d: nat) -> char {
    if d == 0 {
        '0'
    } else if d == 1 {
        '1'
    } else if d == 2 {
        '2'
    } else if d == 3 {
        '3'
    } else if d == 4 {
        '4'
    } else if d == 5 {
        '5'
    } else if d == 6 {
        '6'
    } else if d == 7 {
        '7'
    } else if d == 8 {
        '8'
    } else {
        '9'
    }
}

/// The decimal digits of `n`.
pub open spec fn decimal(n: nat) -> Seq<char>
    decreases n,
{
    if n < 10 {
        seq![digit(n)]
    } else {
        decimal(n / 10).push(digit(n % 10))
    }
}

/// `h1` to `h6` for the depths of a heading.
pub open spec fn heading_tag(depth: u8) -> Seq<char> {
    seq!['h'] + decimal(depth as nat)
}

/// The deepest heading level that carries an `id`.
pub const LOWEST_DEPTH_FOR_ID: u8 = 3;

/// The children joined with spaces, inside the heading's element; down to
/// the third level the element has the slug of that text as its `id`.
pub open spec fn heading_html(depth: u8, parts: Seq<Seq<char>>) -> Seq<char> {
    let content = join(parts, seq![' ']);
    let tag = heading_tag(depth);
    if depth <= LOWEST_DEPTH_FOR_ID {
        seq!['<'] + tag + attr_fragment(seq!['i', 'd'], kebab(content)) + seq!['>'] + content
            + closing_tag(tag)
    } else {
        wrap(content, tag)
    }
}

/// The fragments with each run of spaces alone collapsed, one after another.
pub open spec fn collapsed_concat(parts: Seq<Seq<char>>) -> Seq<char>
    decreases parts.len(),
{
    if parts.len() == 0 {
        seq![]
    } else {
        collapsed_concat(parts.drop_last()) + collapse_spaces(parts.last())
    }
}

pub open spec fn paragraph_html(parts: Seq<Seq<char>>) -> Seq<char> {
    wrap(collapsed_concat(parts), seq!['p'])
}

/// The text that a link shows: its children joined with spaces, or its url
/// where that is empty.
pub open spec fn link_text(url: Seq<char>, parts: Seq<Seq<char>>) -> Seq<char> {
    let content = join(parts, seq![' ']);
    if content.len() == 0 {
        url
    } else {
        content
    }
}

pub open spec fn link_html(url: Seq<char>, parts: Seq<Seq<char>>) -> Seq<char> {
    seq!['<', 'a'] + attr_fragment(seq!['h', 'r', 'e', 'f'], url) + seq!['>'] + link_text(
        url,
        parts,
    ) + closing_tag(seq!['a'])
}

/// A void `img` element; `alt` and `src` are each left out where empty.
pub open spec fn image_html(url: Seq<char>, alt: Seq<char>) -> Seq<char> {
    seq!['<', 'i', 'm', 'g'] + attr_fragment(seq!['a', 'l', 't'], alt) + attr_fragment(
        seq!['s', 'r', 'c'],
        url,
    ) + seq!['>']
}

pub proof fn lemma_render_all_len(s: Seq<Node>)
    ensures
        render_all(s).len() == s.len(),
    decreases s.len(),
{
    if s.len() > 0 {
        lemma_render_all_len(s.drop_last());
    }
}

proof fn lemma_render_all_step(s: Seq<Node>, i: int)
    requires
        0 <= i < s.len(),
    ensures
        render_all(s.take(i + 1)) == render_all(s.take(i)).push(render(s[i])),
        render_all(s.take(i)).len() == i,
{
    assert(s.take(i + 1).drop_last() =~= s.take(i));
    lemma_render_all_len(s.take(i));
}

pub proof fn lemma_render_all_index(s: Seq<Node>, i: int)
    requires
        0 <= i < s.len(),
    ensures
        render_all(s)[i] == render(s[i]),
    decreases s.len(),
{
    lemma_render_all_len(s.drop_last());
    if i < s.len() - 1 {
        lemma_render_all_index(s.drop_last(), i);
    }
}

/// A root without children renders as an empty `article` element.
pub proof fn law_empty_root(r: Root)
    requires
        r.children@.len() == 0,
    ensures
        render(Node::Root(r)) == seq![
            '<', 'a', 'r', 't', 'i', 'c', 'l', 'e', '>', '<', '/', 'a', 'r', 't', 'i', 'c', 'l', 'e', '>',
        ],
{
    let expected = seq![
        '<', 'a', 'r', 't', 'i', 'c', 'l', 'e', '>', '<', '/', 'a', 'r', 't', 'i', 'c', 'l', 'e', '>',
    ];
    assert(render(Node::Root(r)) =~= expected);
}

/// A heading down to the third level has the slug of its joined children as
/// its `id` (written where the slug is not empty); a deeper heading has no
/// attribute at all.
pub proof fn law_heading_id(h: Heading)
    ensures
        ({
            let content = join(render_all(h.children@), seq![' ']);
            let tag = heading_tag(h.depth);
            &&& h.depth <= 3 && kebab(content).len() > 0 ==> render(Node::Heading(h)) == seq!['<']
                + tag + seq![' ', 'i', 'd', '=', '"'] + kebab(content) + seq!['"', '>'] + content
                + closing_tag(tag)
            &&& h.depth > 3 ==> render(Node::Heading(h)) == seq!['<'] + tag + seq!['>'] + content
                + closing_tag(tag)
        }),
{
    let content = join(render_all(h.children@), seq![' ']);
    let tag = heading_tag(h.depth);
    if h.depth <= 3 && kebab(content).len() > 0 {
        assert(render(Node::Heading(h)) =~= seq!['<'] + tag + seq![' ', 'i', 'd', '=', '"']
            + kebab(content) + seq!['"', '>'] + content + closing_tag(tag));
    }
}

/// A link whose children render to nothing shows its url; otherwise it shows
/// its children's fragments joined with spaces.
pub proof fn law_link_text(l: Link)
    ensures
        ({
            let content = join(render_all(l.children@), seq![' ']);
            let open = seq!['<', 'a'] + attr_fragment(seq!['h', 'r', 'e', 'f'], l.url@) + seq!['>'];
            &&& l.children@.len() == 0 ==> render(Node::Link(l)) == open + l.url@ + closing_tag(
                seq!['a'],
            )
            &&& content.len() > 0 ==> render(Node::Link(l)) == open + content + closing_tag(
                seq!['a'],
            )
        }),
{
    if l.children@.len() == 0 {
        assert(render_all(l.children@) =~= Seq::<Seq<char>>::empty());
    }
}

/// An image is a void `img` element: its opening tag alone, with `alt` and
/// `src` each left out where empty.
pub proof fn law_image_void(i: Image)
    ensures
        render(Node::Image(i)) == seq!['<', 'i', 'm', 'g'] + attr_fragment(
            seq!['a', 'l', 't'],
            i.alt@,
        ) + attr_fragment(seq!['s', 'r', 'c'], i.url@) + seq!['>'],
        i.alt@.len() == 0 && i.url@.len() == 0 ==> render(Node::Image(i)) == seq![
            '<', 'i', 'm', 'g', '>',
        ],
        i.alt@.len() == 0 && i.url@.len() > 0 ==> render(Node::Image(i)) == seq![
            '<', 'i', 'm', 'g', ' ', 's', 'r', 'c', '=', '"',
        ] + i.url@ + seq!['"', '>'],
        i.alt@.len() > 0 && i.url@.len() == 0 ==> render(Node::Image(i)) == seq![
            '<', 'i', 'm', 'g', ' ', 'a', 'l', 't', '=', '"',
        ] + i.alt@ + seq!['"', '>'],
        render(Node::Image(i)).last() == '>',
{
    let r = render(Node::Image(i));
    if i.alt@.len() == 0 && i.url@.len() == 0 {
        assert(r =~= seq!['<', 'i', 'm', 'g', '>']);
    }
    if i.alt@.len() == 0 && i.url@.len() > 0 {
        assert(r =~= seq!['<', 'i', 'm', 'g', ' ', 's', 'r', 'c', '=', '"'] + i.url@ + seq![
            '"',
            '>',
        ]);
    }
    if i.alt@.len() > 0 && i.url@.len() == 0 {
        assert(r =~= seq!['<', 'i', 'm', 'g', ' ', 'a', 'l', 't', '=', '"'] + i.alt@ + seq![
            '"',
            '>',
        ]);
    }
}

/// A paragraph writes its children's fragments one after another, each
/// fragment made of spaces alone collapsed to one space and every other
/// fragment kept as it is.
pub proof fn law_paragraph_spaces(p: Paragraph)
    ensures
        render(Node::Paragraph(p)) == wrap(collapsed_concat(render_all(p.children@)), seq!['p']),
        render_all(p.children@).len() == p.children@.len(),
        forall|i: int|
            0 <= i < p.children@.len() ==> #[trigger] render_all(p.children@)[i] == render(
                p.children@[i],
            ),
        forall|f: Seq<char>| f.len() > 0 && all_spaces(f) ==> #[trigger] collapse_spaces(f) == seq![' '],
        forall|f: Seq<char>| !all_spaces(f) ==> #[trigger] collapse_spaces(f) == f,
{
    lemma_render_all_len(p.children@);
    assert forall|i: int| 0 <= i < p.children@.len() implies #[trigger] render_all(p.children@)[i]
        == render(p.children@[i]) by {
        lemma_render_all_index(p.children@, i);
    }
}

/// One of the ten digits.
fn digit_str(d: u8) -> (r: &'static str)
    requires
        d < 10,
    ensures
        r@ == seq![digit(d as nat)],
{
    proof {
        reveal_strlit("0");
        reveal_strlit("1");
        reveal_strlit("2");
        reveal_strlit("3");
        reveal_strlit("4");
        reveal_strlit("5");
        reveal_strlit("6");
        reveal_strlit("7");
        reveal_strlit("8");
        reveal_strlit("9");
    }
    if d == 0 {
        "0"
    } else if d == 1 {
        "1"
    } else if d == 2 {
        "2"
    } else if d == 3 {
        "3"
    } else if d == 4 {
        "4"
    } else if d == 5 {
        "5"
    } else if d == 6 {
        "6"
    } else if d == 7 {
        "7"
    } else if d == 8 {
        "8"
    } else {
        "9"
    }
}

/// The tag name of a heading of the given depth.
fn heading_tag_name(depth: u8) -> (r: String)
    ensures
        r@ == heading_tag(depth),
{
    proof {
        reveal_strlit("h");
        reveal_with_fuel(decimal, 3);
    }
    let mut r = String::from_str("h");
    if depth >= 100 {
        r.append(digit_str(depth / 100));
    }
    if depth >= 10 {
        r.append(digit_str((depth / 10) % 10));
    }
    r.append(digit_str(depth % 10));
    proof {
        let n = depth as nat;
        if n >= 100 {
            assert((n / 10) / 10 == n / 100) by (nonlinear_arith);
            assert(n / 100 < 10) by (nonlinear_arith)
                requires n < 256;
            assert(decimal(n) =~= seq![digit(n / 100), digit((n / 10) % 10), digit(n % 10)]);
        } else if n >= 10 {
            assert(decimal(n) =~= seq![digit(n / 10), digit(n % 10)]);
        }
        assert(r@ =~= heading_tag(depth));
    }
    r
}

/// The renderer that writes each supported node kind as HTML; the kinds it
/// does not support yet give an empty fragment.
pub struct BasicHtmlVisitor;

impl BasicHtmlVisitor {
    /// Renders a node by its kind.
    pub fn visit_node(&self, n: &Node) -> (r: String)
        ensures
            r@ == render(*n),
        decreases n,
    {
        match n {
            Node::Root(x) => self.visit_root(x),
            Node::Blockquote(_) => String::new(),
            Node::FootnoteDefinition(_) => String::new(),
            Node::MdxJsxFlowElement(_) => String::new(),
            Node::List(_) => String::new(),
            Node::MdxjsEsm(_) => String::new(),
            Node::Toml(_) => String::new(),
            Node::Yaml(_) => String::new(),
            Node::Break(_) => String::new(),
            Node::InlineCode(_) => String::new(),
            Node::InlineMath(_) => String::new(),
            Node::Delete(_) => String::new(),
            Node::Emphasis(_) => String::new(),
            Node::MdxTextExpression(_) => String::new(),
            Node::FootnoteReference(_) => String::new(),
            Node::Html(_) => String::new(),
            Node::Image(x) => self.visit_image(x),
            Node::ImageReference(_) => String::new(),
            Node::MdxJsxTextElement(_) => String::new(),
            Node::Link(x) => self.visit_link(x),
            Node::LinkReference(_) => String::new(),
            Node::Strong(_) => String::new(),
            Node::Text(x) => self.visit_text(x),
            Node::Code(_) => String::new(),
            Node::Math(_) => String::new(),
            Node::MdxFlowExpression(_) => String::new(),
            Node::Heading(x) => self.visit_heading(x),
            Node::Table(_) => String::new(),
            Node::ThematicBreak(_) => String::new(),
            Node::TableRow(_) => String::new(),
            Node::TableCell(_) => String::new(),
            Node::ListItem(_) => String::new(),
            Node::Definition(_) => String::new(),
            Node::Paragraph(x) => self.visit_paragraph(x),
        }
    }

    /// Renders each child and joins the fragments with `sep`.
    fn join_children(&self, children: &Vec<Node>, sep: &str) -> (r: String)
        ensures
            r@ == join(render_all(children@), sep@),
        decreases children,
    {
        let mut r = String::new();
        let n = children.len();
        let mut i: usize = 0;
        assert(children@.take(0) =~= Seq::<Node>::empty());
        while i < n
            invariant
                n == children@.len(),
                i <= n,
                r@ == join(render_all(children@.take(i as int)), sep@),
            decreases n - i,
        {
            let part = self.visit_node(&children[i]);
            proof {
                lemma_render_all_step(children@, i as int);
                lemma_join_push(render_all(children@.take(i as int)), sep@, part@);
            }
            if i > 0 {
                r.append(sep);
            }
            r.append(part.as_str());
            i = i + 1;
        }
        assert(children@.take(n as int) =~= children@);
        r
    }

    pub fn visit_root(&self, h: &Root) -> (r: String)
        ensures
            r@ == root_html(render_all(h.children@)),
        decreases h,
    {
        proof {
            reveal_strlit("\n");
            reveal_strlit("article");
            assert("\n"@ =~= seq!['\n']);
            assert("article"@ =~= seq!['a', 'r', 't', 'i', 'c', 'l', 'e']);
        }
        let content = self.join_children(&h.children, "\n");
        surround_by_tags(content.as_str(), "article")
    }

    pub fn visit_heading(&self, h: &Heading) -> (r: String)
        ensures
            r@ == heading_html(h.depth, render_all(h.children@)),
        decreases h,
    {
        proof {
            reveal_strlit(" ");
            assert(" "@ =~= seq![' ']);
        }
        let content = self.join_children(&h.children, " ");
        let tag_name = heading_tag_name(h.depth);
        if h.depth <= LOWEST_DEPTH_FOR_ID {
            let id = to_kebab_case(content.as_str());
            let id_value: Option<&str> = Some(id.as_str());
            assert(details_attrs(id_value, None) == attr_fragment(seq!['i', 'd'], id@));
            let r = surround_by_tags_with_details(
                content.as_str(),
                tag_name.as_str(),
                id_value,
                None,
            );
            assert(r@ =~= heading_html(h.depth, render_all(h.children@)));
            r
        } else {
            surround_by_tags(content.as_str(), tag_name.as_str())
        }
    }

    pub fn visit_paragraph(&self, h: &Paragraph) -> (r: String)
        ensures
            r@ == paragraph_html(render_all(h.children@)),
        decreases h,
    {
        let children = &h.children;
        let mut content = String::new();
        let n = children.len();
        let mut i: usize = 0;
        assert(children@.take(0) =~= Seq::<Node>::empty());
        while i < n
            invariant
                n == children@.len(),
                i <= n,
                children == &h.children,
                content@ == collapsed_concat(render_all(children@.take(i as int))),
            decreases n - i,
        {
            let part = self.visit_node(&children[i]);
            let collapsed = multiple_spaces_into_one(part.as_str());
            proof {
                lemma_render_all_step(children@, i as int);
                let parts = render_all(children@.take(i as int)).push(part@);
                assert(parts.drop_last() =~= render_all(children@.take(i as int)));
            }
            content.append(collapsed.as_str());
            i = i + 1;
        }
        assert(children@.take(n as int) =~= children@);
        proof {
            reveal_strlit("p");
        }
        surround_by_tags(content.as_str(), "p")
    }

    pub fn visit_link(&self, h: &Link) -> (r: String)
        ensures
            r@ == link_html(h.url@, render_all(h.children@)),
        decreases h,
    {
        proof {
            reveal_strlit(" ");
            reveal_strlit("a");
            reveal_strlit("href");
            assert(" "@ =~= seq![' ']);
            assert("a"@ =~= seq!['a']);
            assert("href"@ =~= seq!['h', 'r', 'e', 'f']);
        }
        let mut content = self.join_children(&h.children, " ");
        if content.as_str().unicode_len() == 0 {
            content = h.url.clone();
        }
        let mut attributes: Vec<(&str, HTMLAttributesValues)> = Vec::new();
        attributes.push(("href", HTMLAttributesValues::String(h.url.as_str())));
        proof {
            let a = attributes@;
            assert(a.drop_last() =~= Seq::<(&str, HTMLAttributesValues)>::empty());
            reveal_with_fuel(attr_map, 2);
            assert(attr_map(a).dom() =~= set![a[0].0@]);
            lemma_attrs_html_single(attr_map(a), a[0].0@);
        }
        let r = surround_by_tags_with_attributes(content.as_str(), "a", &attributes, true);
        assert(r@ =~= link_html(h.url@, render_all(h.children@)));
        r
    }

    pub fn visit_image(&self, h: &Image) -> (r: String)
        ensures
            r@ == image_html(h.url@, h.alt@),
    {
        proof {
            reveal_strlit("img");
            reveal_strlit("src");
            reveal_strlit("alt");
        }
        let mut attributes: Vec<(&str, HTMLAttributesValues)> = Vec::new();
        attributes.push(("src", HTMLAttributesValues::String(h.url.as_str())));
        attributes.push(("alt", HTMLAttributesValues::String(h.alt.as_str())));
        proof {
            let a = attributes@;
            let ksrc = seq!['s', 'r', 'c'];
            let kalt = seq!['a', 'l', 't'];
            assert(a[0].0@ =~= ksrc);
            assert(a[1].0@ =~= kalt);
            reveal_with_fuel(attr_map, 3);
            assert(a.drop_last().drop_last() =~= Seq::<(&str, HTMLAttributesValues)>::empty());
            assert(a.drop_last().last() == a[0]);
            let m = attr_map(a);
            assert(m.dom() =~= set![ksrc, kalt]);
            assert(key_le(kalt, ksrc));
            lemma_key_le_reflexive(kalt);
            assert(is_least_key(m, kalt));
            lemma_attrs_html_least(m, kalt);
            assert(m.remove(kalt).dom() =~= set![ksrc]);
            lemma_attrs_html_single(m.remove(kalt), ksrc);
        }
        let r = surround_by_tags_with_attributes("", "img", &attributes, false);
        assert(r@ =~= image_html(h.url@, h.alt@));
        r
    }

    pub fn visit_text(&self, h: &Text) -> (r: String)
        ensures
            r@ == h.value@,
    {
        h.value.clone()
    }
}

} // verus!
