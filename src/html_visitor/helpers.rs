use vstd::prelude::*;
use vstd::string::*;

verus! {

/// The value of one HTML attribute: a single string, or a list of tokens
/// (such as CSS classes) that are joined with single spaces.
pub enum HTMLAttributesValues<'a> {
    String(&'a str),
    VecOfString(Vec<&'a str>),
}

/// The tokens of `v` that are not empty, in their order.
pub open spec fn nonempty_tokens(v: Seq<&str>) -> Seq<Seq<char>>
    decreases v.len(),
{
    if v.len() == 0 {
        seq![]
    } else {
        let rest = nonempty_tokens(v.drop_last());
        if v.last()@.len() > 0 {
            rest.push(v.last()@)
        } else {
            rest
        }
    }
}

/// `parts` joined with `sep` between each two neighbours.
pub open spec fn join(parts: Seq<Seq<char>>, sep: Seq<char>) -> Seq<char>
    decreases parts.len(),
{
    if parts.len() == 0 {
        seq![]
    } else if parts.len() == 1 {
        parts[0]
    } else {
        join(parts.drop_last(), sep) + sep + parts.last()
    }
}

impl<'a> HTMLAttributesValues<'a> {
    /// The text that the attribute's value is written as.
    pub open spec fn text(self) -> Seq<char> {
        match self {
            HTMLAttributesValues::String(s) => s@,
            HTMLAttributesValues::VecOfString(v) => join(nonempty_tokens(v@), seq![' ']),
        }
    }
}

/// ` key="text"`, or nothing where the text is empty.
pub open spec fn attr_fragment(key: Seq<char>, text: Seq<char>) -> Seq<char> {
    if text.len() == 0 {
        seq![]
    } else {
        seq![' '] + key + seq!['=', '"'] + text + seq!['"']
    }
}

/// Lexicographic order on attribute names, character by character.
pub open spec fn key_le(a: Seq<char>, b: Seq<char>) -> bool
    decreases a.len(),
{
    if a.len() == 0 {
        true
    } else if b.len() == 0 {
        false
    } else if a[0] != b[0] {
        a[0] < b[0]
    } else {
        key_le(a.drop_first(), b.drop_first())
    }
}

pub open spec fn is_least_key(m: Map<Seq<char>, Seq<char>>, k: Seq<char>) -> bool {
    &&& m.dom().contains(k)
    &&& forall|k2: Seq<char>| m.dom().contains(k2) ==> key_le(k, k2)
}

/// The attributes of `m` written out in lexicographic order of their names,
/// those with an empty text left out.
pub open spec fn attrs_html(m: Map<Seq<char>, Seq<char>>) -> Seq<char>
    decreases m.dom().len(),
    when m.dom().finite()
{
    if exists|k: Seq<char>| is_least_key(m, k) {
        let k = choose|k: Seq<char>| is_least_key(m, k);
        attr_fragment(k, m[k]) + attrs_html(m.remove(k))
    } else {
        seq![]
    }
}

/// The mapping from attribute name to attribute text that a list of pairs describes.
pub open spec fn attr_map(s: Seq<(&str, HTMLAttributesValues)>) -> Map<Seq<char>, Seq<char>>
    decreases s.len(),
{
    if s.len() == 0 {
        Map::empty()
    } else {
        attr_map(s.drop_last()).insert(s.last().0@, s.last().1.text())
    }
}

pub open spec fn keys_unique(s: Seq<(&str, HTMLAttributesValues)>) -> bool {
    forall|i: int, j: int|
        0 <= i < s.len() && 0 <= j < s.len() && i != j ==> s[i].0@ != s[j].0@
}

pub open spec fn opening_tag(tag: Seq<char>, attrs: Map<Seq<char>, Seq<char>>) -> Seq<char> {
    seq!['<'] + tag + attrs_html(attrs) + seq!['>']
}

pub open spec fn closing_tag(tag: Seq<char>) -> Seq<char> {
    seq!['<', '/'] + tag + seq!['>']
}

/// The element `tag` with attributes `attrs` around `content`; a void element
/// (the opening tag alone) where `closing` is false.
pub open spec fn element(
    content: Seq<char>,
    tag: Seq<char>,
    attrs: Map<Seq<char>, Seq<char>>,
    closing: bool,
) -> Seq<char> {
    if closing {
        opening_tag(tag, attrs) + content + closing_tag(tag)
    } else {
        opening_tag(tag, attrs)
    }
}

/// `<tag>content</tag>`.
pub open spec fn wrap(content: Seq<char>, tag: Seq<char>) -> Seq<char> {
    seq!['<'] + tag + seq!['>'] + content + closing_tag(tag)
}

pub proof fn lemma_key_le_total(a: Seq<char>, b: Seq<char>)
    ensures
        key_le(a, b) || key_le(b, a),
    decreases a.len(),
{
    if a.len() > 0 && b.len() > 0 && a[0] == b[0] {
        lemma_key_le_total(a.drop_first(), b.drop_first());
    }
}

pub proof fn lemma_key_le_reflexive(a: Seq<char>)
    ensures
        key_le(a, a),
    decreases a.len(),
{
    if a.len() > 0 {
        lemma_key_le_reflexive(a.drop_first());
    }
}

pub proof fn lemma_key_le_antisymmetric(a: Seq<char>, b: Seq<char>)
    requires
        key_le(a, b),
        key_le(b, a),
    ensures
        a == b,
    decreases a.len(),
{
    if a.len() > 0 {
        lemma_key_le_antisymmetric(a.drop_first(), b.drop_first());
        assert(a =~= seq![a[0]] + a.drop_first());
        assert(b =~= seq![b[0]] + b.drop_first());
    } else {
        assert(b =~= a);
    }
}

pub proof fn lemma_key_le_transitive(a: Seq<char>, b: Seq<char>, c: Seq<char>)
    requires
        key_le(a, b),
        key_le(b, c),
    ensures
        key_le(a, c),
    decreases a.len(),
{
    if a.len() > 0 && b.len() > 0 && c.len() > 0 && a[0] == b[0] && b[0] == c[0] {
        lemma_key_le_transitive(a.drop_first(), b.drop_first(), c.drop_first());
    }
}

/// Compares two attribute names in lexicographic order.
fn key_le_exec(a: &str, b: &str) -> (r: bool)
    ensures
        r == key_le(a@, b@),
{
    let la = a.unicode_len();
    let lb = b.unicode_len();
    let mut i: usize = 0;
    assert(a@.skip(0) =~= a@);
    assert(b@.skip(0) =~= b@);
    while i < la && i < lb
        invariant
            la == a@.len(),
            lb == b@.len(),
            i <= la,
            i <= lb,
            key_le(a@, b@) == key_le(a@.skip(i as int), b@.skip(i as int)),
        decreases la - i,
    {
        let ca = a.get_char(i);
        let cb = b.get_char(i);
        if ca != cb {
            return ca < cb;
        }
        assert(a@.skip(i as int).drop_first() =~= a@.skip(i + 1));
        assert(b@.skip(i as int).drop_first() =~= b@.skip(i + 1));
        i = i + 1;
    }
    i == la
}

pub proof fn lemma_join_push(parts: Seq<Seq<char>>, sep: Seq<char>, x: Seq<char>)
    ensures
        join(parts.push(x), sep) == if parts.len() == 0 {
            x
        } else {
            join(parts, sep) + sep + x
        },
{
    assert(parts.push(x).drop_last() =~= parts);
}

proof fn lemma_attr_map(s: Seq<(&str, HTMLAttributesValues)>)
    requires
        keys_unique(s),
    ensures
        attr_map(s).dom().finite(),
        forall|i: int|
            0 <= i < s.len() ==> #[trigger] attr_map(s).contains_key(s[i].0@) && attr_map(s)[s[i].0@]
                == s[i].1.text(),
        forall|k: Seq<char>|
            #[trigger] attr_map(s).contains_key(k) ==> exists|i: int| 0 <= i < s.len() && s[i].0@ == k,
    decreases s.len(),
{
    if s.len() > 0 {
        let t = s.drop_last();
        assert(keys_unique(t));
        lemma_attr_map(t);
        assert forall|i: int| 0 <= i < s.len() implies #[trigger] attr_map(s).contains_key(s[i].0@)
            && attr_map(s)[s[i].0@] == s[i].1.text() by {
            if i < s.len() - 1 {
                assert(t[i] == s[i]);
            }
        }
        assert forall|k: Seq<char>| #[trigger] attr_map(s).contains_key(k) implies exists|i: int|
            0 <= i < s.len() && s[i].0@ == k by {
            if k != s.last().0@ {
                let i = choose|i: int| 0 <= i < t.len() && t[i].0@ == k;
                assert(s[i] == t[i]);
            }
        }
    }
}

/// The attribute with the least name comes first, followed by the others.
pub proof fn lemma_attrs_html_least(m: Map<Seq<char>, Seq<char>>, k: Seq<char>)
    requires
        m.dom().finite(),
        is_least_key(m, k),
    ensures
        attrs_html(m) == attr_fragment(k, m[k]) + attrs_html(m.remove(k)),
{
    let k2 = choose|k2: Seq<char>| is_least_key(m, k2);
    assert(is_least_key(m, k2));
    assert(key_le(k, k2) && key_le(k2, k));
    lemma_key_le_antisymmetric(k, k2);
}

pub proof fn lemma_attrs_html_empty(m: Map<Seq<char>, Seq<char>>)
    requires
        m.dom().finite(),
        forall|k: Seq<char>| !m.dom().contains(k),
    ensures
        attrs_html(m) == Seq::<char>::empty(),
{
}

/// The text that an attribute value is written as.
fn attribute_text(v: &HTMLAttributesValues) -> (r: String)
    ensures
        r@ == v.text(),
{
    match v {
        HTMLAttributesValues::String(s) => String::from_str(s),
        HTMLAttributesValues::VecOfString(tokens) => {
            let mut r = String::new();
            let mut any = false;
            proof {
                reveal_strlit(" ");
                assert(tokens@.take(0) =~= Seq::<&str>::empty());
            }
            for i in 0..tokens.len()
                invariant
                    " "@ == seq![' '],
                    r@ == join(nonempty_tokens(tokens@.take(i as int)), seq![' ']),
                    any == (nonempty_tokens(tokens@.take(i as int)).len() > 0),
            {
                let t: &str = tokens[i];
                let ghost before = nonempty_tokens(tokens@.take(i as int));
                assert(tokens@.take(i + 1).drop_last() =~= tokens@.take(i as int));
                assert(tokens@.take(i + 1).last() == t);
                if t.unicode_len() > 0 {
                    proof {
                        lemma_join_push(before, seq![' '], t@);
                    }
                    if any {
                        r.append(" ");
                    }
                    r.append(t);
                    any = true;
                }
            }
            assert(tokens@.take(tokens@.len() as int) =~= tokens@);
            r
        },
    }
}

/// ` key="text"`, or an empty string where the text is empty.
fn attribute_fragment(key: &str, text: &String) -> (r: String)
    ensures
        r@ == attr_fragment(key@, text@),
{
    let mut r = String::new();
    if text.as_str().unicode_len() > 0 {
        proof {
            reveal_strlit(" ");
            reveal_strlit("=\"");
            reveal_strlit("\"");
        }
        r.append(" ");
        r.append(key);
        r.append("=\"");
        r.append(text.as_str());
        r.append("\"");
        assert(r@ =~= attr_fragment(key@, text@));
    } else {
        assert(r@ =~= attr_fragment(key@, text@));
    }
    r
}

/// Writes the element `tag_name` around `content`, with the attributes listed
/// in lexicographic order of their names. An attribute whose text is empty is
/// left out. Without a closing tag the element is void: the content is not
/// written either.
pub fn surround_by_tags_with_attributes(
    content: &str,
    tag_name: &str,
    attributes: &Vec<(&str, HTMLAttributesValues)>,
    have_closing_tags: bool,
) -> (r: String)
    requires
        keys_unique(attributes@),
    ensures
        r@ == element(content@, tag_name@, attr_map(attributes@), have_closing_tags),
{
    let n = attributes.len();
    let mut done: Vec<bool> = Vec::new();
    let mut i: usize = 0;
    while i < n
        invariant
            i <= n,
            done@.len() == i,
            forall|j: int| 0 <= j < i ==> !done@[j],
        decreases n - i,
    {
        done.push(false);
        i = i + 1;
    }
    let ghost s = attributes@;
    let ghost full = attr_map(s);
    let ghost mut rem = full;
    proof {
        lemma_attr_map(s);
        reveal_strlit("<");
        assert forall|k: Seq<char>| #[trigger] rem.contains_key(k) implies exists|j: int|
            0 <= j < n && !done@[j] && s[j].0@ == k by {
            let j = choose|j: int| 0 <= j < s.len() && s[j].0@ == k;
            assert(!done@[j]);
        }
        assert forall|j: int| 0 <= j < n && !done@[j] implies #[trigger] rem.contains_key(s[j].0@)
            && rem[s[j].0@] == s[j].1.text() by {
            assert(attr_map(s).contains_key(s[j].0@));
        }
    }
    let mut out = String::from_str("<");
    out.append(tag_name);
    let ghost prefix = out@;
    let mut finished = false;
    assert(forall|i: int|
        0 <= i < n && !done@[i] ==> #[trigger] rem.contains_key(s[i].0@) && rem[s[i].0@]
            == s[i].1.text());
    while !finished
        invariant
            n == s.len(),
            s == attributes@,
            keys_unique(s),
            done@.len() == n,
            rem.dom().finite(),
            full.dom().finite(),
            forall|i: int|
                0 <= i < n && !done@[i] ==> #[trigger] rem.contains_key(s[i].0@) && rem[s[i].0@]
                    == s[i].1.text(),
            forall|i: int| 0 <= i < n && done@[i] ==> !#[trigger] rem.contains_key(s[i].0@),
            forall|k: Seq<char>|
                #[trigger] rem.contains_key(k) ==> exists|i: int|
                    0 <= i < n && !done@[i] && s[i].0@ == k,
            out@ + attrs_html(rem) == prefix + attrs_html(full),
            finished ==> forall|k: Seq<char>| !rem.dom().contains(k),
        decreases rem.dom().len() + if finished { 0int } else { 1int },
    {
        let mut best: usize = n;
        let mut i: usize = 0;
        while i < n
            invariant
                n == s.len(),
                s == attributes@,
                done@.len() == n,
                i <= n,
                best <= n,
                best == n ==> forall|j: int| 0 <= j < i ==> done@[j],
                best < n ==> best < i && !done@[best as int],
                best < n ==> forall|j: int|
                    0 <= j < i && !done@[j] ==> key_le(s[best as int].0@, #[trigger] s[j].0@),
            decreases n - i,
        {
            if !done[i] {
                if best == n {
                    proof {
                        lemma_key_le_reflexive(s[i as int].0@);
                    }
                    best = i;
                } else if !key_le_exec(attributes[best].0, attributes[i].0) {
                    proof {
                        let kb = s[best as int].0@;
                        let ki = s[i as int].0@;
                        lemma_key_le_total(kb, ki);
                        lemma_key_le_reflexive(ki);
                        assert forall|j: int| 0 <= j < i && !done@[j] implies key_le(
                            ki,
                            #[trigger] s[j].0@,
                        ) by {
                            lemma_key_le_transitive(ki, kb, s[j].0@);
                        }
                    }
                    best = i;
                }
            }
            i = i + 1;
        }
        if best == n {
            proof {
                assert forall|k: Seq<char>| !rem.dom().contains(k) by {
                    if rem.contains_key(k) {
                        let j = choose|j: int| 0 <= j < n && !done@[j] && s[j].0@ == k;
                    }
                }
            }
            finished = true;
        } else {
            let ghost kb = s[best as int].0@;
            proof {
                assert forall|k2: Seq<char>| rem.dom().contains(k2) implies key_le(kb, k2) by {
                    let j = choose|j: int| 0 <= j < n && !done@[j] && s[j].0@ == k2;
                }
                assert(is_least_key(rem, kb));
                lemma_attrs_html_least(rem, kb);
            }
            let text = attribute_text(&attributes[best].1);
            let frag = attribute_fragment(attributes[best].0, &text);
            out.append(frag.as_str());
            let ghost old_done = done@;
            let ghost old_rem = rem;
            done.set(best, true);
            proof {
                rem = rem.remove(kb);
                assert forall|k: Seq<char>| #[trigger] rem.contains_key(k) implies old_rem.contains_key(k) && k != kb by {}
                assert forall|k: Seq<char>| #[trigger] rem.contains_key(k) implies exists|i: int|
                    0 <= i < n && !done@[i] && s[i].0@ == k by {
                    let j = choose|j: int| 0 <= j < n && !old_done[j] && s[j].0@ == k;
                    assert(j != best);
                    assert(done@[j] == old_done[j]);
                    assert(0 <= j < n && !done@[j] && s[j].0@ == k);
                }
            }
        }
    }
    proof {
        lemma_attrs_html_empty(rem);
        reveal_strlit(">");
        reveal_strlit("</");
    }
    out.append(">");
    if have_closing_tags {
        out.append(content);
        out.append("</");
        out.append(tag_name);
        out.append(">");
    }
    assert(out@ =~= element(content@, tag_name@, full, have_closing_tags));
    out
}

/// Two attribute lists that hold the same pairs, in whatever order, give
/// the same element.
pub proof fn law_attribute_order(
    a: Seq<(&str, HTMLAttributesValues)>,
    b: Seq<(&str, HTMLAttributesValues)>,
    content: Seq<char>,
    tag: Seq<char>,
    closing: bool,
)
    requires
        keys_unique(a),
        keys_unique(b),
        forall|x: (&str, HTMLAttributesValues)| #[trigger] a.contains(x) == b.contains(x),
    ensures
        element(content, tag, attr_map(a), closing) == element(content, tag, attr_map(b), closing),
{
    lemma_attr_map(a);
    lemma_attr_map(b);
    let ma = attr_map(a);
    let mb = attr_map(b);
    assert forall|k: Seq<char>| ma.contains_key(k) implies mb.contains_key(k) && mb[k] == ma[k] by {
        let i = choose|i: int| 0 <= i < a.len() && a[i].0@ == k;
        assert(a.contains(a[i]));
        let j = choose|j: int| 0 <= j < b.len() && b[j] == a[i];
        assert(mb.contains_key(b[j].0@));
    }
    assert forall|k: Seq<char>| mb.contains_key(k) implies ma.contains_key(k) by {
        let j = choose|j: int| 0 <= j < b.len() && b[j].0@ == k;
        assert(b.contains(b[j]));
        assert(a.contains(b[j]));
        let i = choose|i: int| 0 <= i < a.len() && a[i] == b[j];
        assert(ma.contains_key(a[i].0@));
    }
    assert(ma =~= mb);
}

/// The attributes that an optional id and an optional list of classes give,
/// in the order in which they are written: `class` before `id`.
pub open spec fn details_attrs(id: Option<&str>, classes: Option<Vec<&str>>) -> Seq<char> {
    let class_part = match classes {
        Some(c) => attr_fragment(seq!['c', 'l', 'a', 's', 's'], join(nonempty_tokens(c@), seq![' '])),
        None => seq![],
    };
    let id_part = match id {
        Some(i) => attr_fragment(seq!['i', 'd'], i@),
        None => seq![],
    };
    class_part + id_part
}

pub proof fn lemma_attrs_html_single(m: Map<Seq<char>, Seq<char>>, k: Seq<char>)
    requires
        m.dom() =~= set![k],
    ensures
        attrs_html(m) == attr_fragment(k, m[k]),
{
    lemma_key_le_reflexive(k);
    assert(is_least_key(m, k));
    lemma_attrs_html_least(m, k);
    lemma_attrs_html_empty(m.remove(k));
    assert(attr_fragment(k, m[k]) + Seq::<char>::empty() =~= attr_fragment(k, m[k]));
}

/// Writes the element `tag_name` around `content`, with an `id` attribute
/// where `id` is given and a `class` attribute where `classes` is given.
pub fn surround_by_tags_with_details(
    content: &str,
    tag_name: &str,
    id: Option<&str>,
    classes: Option<Vec<&str>>,
) -> (r: String)
    ensures
        r@ == seq!['<'] + tag_name@ + details_attrs(id, classes) + seq!['>'] + content@
            + closing_tag(tag_name@),
{
    let ghost g_id = id;
    let ghost g_classes = classes;
    let mut attributes: Vec<(&str, HTMLAttributesValues)> = Vec::new();
    match id {
        Some(id_value) => {
            attributes.push(("id", HTMLAttributesValues::String(id_value)));
        },
        None => {},
    }
    match classes {
        Some(classes_value) => {
            attributes.push(("class", HTMLAttributesValues::VecOfString(classes_value)));
        },
        None => {},
    }
    let ghost kid = seq!['i', 'd'];
    let ghost kclass = seq!['c', 'l', 'a', 's', 's'];
    proof {
        reveal_strlit("id");
        reveal_strlit("class");
        assert("id"@ =~= kid);
        assert("class"@ =~= kclass);
        assert(kid != kclass) by {
            assert(kid.len() != kclass.len());
        }
    }
    let ghost a = attributes@;
    proof {
        reveal_with_fuel(attr_map, 3);
        let m = attr_map(a);
        let frag_class = match g_classes {
            Some(c) => attr_fragment(kclass, join(nonempty_tokens(c@), seq![' '])),
            None => Seq::<char>::empty(),
        };
        let frag_id = match g_id {
            Some(i) => attr_fragment(kid, i@),
            None => Seq::<char>::empty(),
        };
        if a.len() == 0 {
            lemma_attrs_html_empty(m);
        } else if a.len() == 1 {
            assert(a.drop_last() =~= Seq::<(&str, HTMLAttributesValues)>::empty());
            lemma_attrs_html_single(m, a[0].0@);
        } else {
            assert(a.drop_last().drop_last() =~= Seq::<(&str, HTMLAttributesValues)>::empty());
            assert(a.drop_last().last() == a[0]);
            assert(m.dom() =~= set![kid, kclass]);
            assert(key_le(kclass, kid));
            lemma_key_le_reflexive(kclass);
            assert(is_least_key(m, kclass));
            lemma_attrs_html_least(m, kclass);
            lemma_attrs_html_single(m.remove(kclass), kid);
        }
        assert(attrs_html(m) =~= frag_class + frag_id);
    }
    surround_by_tags_with_attributes(content, tag_name, &attributes, true)
}

/// Writes `<tag_name>content</tag_name>`.
pub fn surround_by_tags(content: &str, tag_name: &str) -> (r: String)
    ensures
        r@ == wrap(content@, tag_name@),
{
    let r = surround_by_tags_with_details(content, tag_name, None, None);
    assert(r@ =~= wrap(content@, tag_name@));
    r
}

/// `s` with each space replaced by a hyphen.
pub open spec fn hyphenate(s: Seq<char>) -> Seq<char> {
    s.map_values(|c: char| if c == ' ' { '-' } else { c })
}

/// What `str::to_lowercase` makes of a string.
pub uninterp spec fn lower_of(s: Seq<char>) -> Seq<char>;

/// Relies on `str::to_lowercase`: the result depends on the characters
/// alone, and each character maps to one or more characters.
#[verifier::external_body]
fn lowercase(s: &str) -> (r: String)
    ensures
        r@ == lower_of(s@),
        s@.len() == 0 ==> r@.len() == 0,
        s@.len() > 0 ==> r@.len() > 0,
{
    s.to_lowercase()
}

/// The slug of a heading's text: lower case, with hyphens for spaces.
pub open spec fn kebab(s: Seq<char>) -> Seq<char> {
    lower_of(hyphenate(s))
}

/// Replaces each space by a hyphen, then lowercases the text.
pub fn to_kebab_case(value: &str) -> (r: String)
    ensures
        r@ == kebab(value@),
        value@.len() > 0 ==> r@.len() > 0,
{
    let n = value.unicode_len();
    let mut hyphenated = String::new();
    let mut i: usize = 0;
    while i < n
        invariant
            n == value@.len(),
            i <= n,
            hyphenated@ =~= hyphenate(value@.take(i as int)),
        decreases n - i,
    {
        let c = value.get_char(i);
        if c == ' ' {
            proof {
                reveal_strlit("-");
            }
            hyphenated.append("-");
        } else {
            hyphenated.append(value.substring_char(i, i + 1));
        }
        assert(hyphenated@ =~= hyphenate(value@.take(i + 1)));
        i = i + 1;
    }
    assert(value@.take(n as int) =~= value@);
    lowercase(hyphenated.as_str())
}

pub open spec fn all_spaces(s: Seq<char>) -> bool {
    forall|i: int| 0 <= i < s.len() ==> s[i] == ' '
}

/// A fragment made of spaces alone becomes one space; the empty fragment and
/// any fragment with another character stay as they are.
pub open spec fn collapse_spaces(s: Seq<char>) -> Seq<char> {
    if s.len() > 0 && all_spaces(s) {
        seq![' ']
    } else {
        s
    }
}

/// Collapses a fragment of spaces alone into one space.
pub fn multiple_spaces_into_one(s: &str) -> (r: String)
    ensures
        r@ == collapse_spaces(s@),
{
    let n = s.unicode_len();
    if n == 0 {
        return String::new();
    }
    let mut i: usize = 0;
    while i < n
        invariant
            n == s@.len(),
            i <= n,
            forall|j: int| 0 <= j < i ==> s@[j] == ' ',
        decreases n - i,
    {
        if s.get_char(i) != ' ' {
            return String::from_str(s);
        }
        i = i + 1;
    }
    proof {
        reveal_strlit(" ");
    }
    String::from_str(" ")
}

} // verus!
