//! The document model: an ordered tree of nodes with elements, text,
//! comments and doctypes, together with its ghost model and the
//! attribute operations that the inlining passes rely on.
use vstd::prelude::*;

verus! {

/// One attribute of an element: a name and a value.
/// Names are unique per element in documents that come from a parser;
/// the operations below use the first occurrence and so behave the
/// same whether or not duplicates occur.
pub struct Attr {
    pub name: String,
    pub value: String,
}

/// An element: a tag name, its attributes in order, and its children.
pub struct Elem {
    pub name: String,
    pub attrs: Vec<Attr>,
    pub children: Vec<Node>,
}

/// A doctype declaration.
pub struct Doctype {
    pub name: String,
    pub public_id: String,
    pub system_id: String,
}

/// One node of the document tree.
pub enum Node {
    Element(Elem),
    Text(String),
    Comment(String),
    Doctype(Doctype),
}

/// A whole document: the ordered list of top-level nodes.
pub struct Document {
    pub nodes: Vec<Node>,
}

/// Ghost model of an attribute.
#[verifier::ext_equal]
pub struct AttrM {
    pub name: Seq<char>,
    pub value: Seq<char>,
}

/// Ghost model of an element.
#[verifier::ext_equal]
pub struct ElemM {
    pub name: Seq<char>,
    pub attrs: Seq<AttrM>,
    pub children: Seq<NodeM>,
}

/// Ghost model of a doctype.
#[verifier::ext_equal]
pub struct DoctypeM {
    pub name: Seq<char>,
    pub public_id: Seq<char>,
    pub system_id: Seq<char>,
}

/// Ghost model of a node.
#[verifier::ext_equal]
pub enum NodeM {
    Element(ElemM),
    Text(Seq<char>),
    Comment(Seq<char>),
    Doctype(DoctypeM),
}

pub open spec fn attr_m(a: Attr) -> AttrM {
    AttrM { name: a.name@, value: a.value@ }
}

pub open spec fn attrs_m(s: Seq<Attr>) -> Seq<AttrM> {
    Seq::new(s.len(), |i: int| attr_m(s[i]))
}

/// The model of a sequence of strings.
pub open spec fn strs_m(s: Seq<String>) -> Seq<Seq<char>> {
    Seq::new(s.len(), |i: int| s[i]@)
}

pub open spec fn node_m(n: Node) -> NodeM
    decreases n, 0int,
{
    match n {
        Node::Element(e) => NodeM::Element(
            ElemM { name: e.name@, attrs: attrs_m(e.attrs@), children: nodes_m(e.children@) },
        ),
        Node::Text(t) => NodeM::Text(t@),
        Node::Comment(t) => NodeM::Comment(t@),
        Node::Doctype(d) => NodeM::Doctype(
            DoctypeM { name: d.name@, public_id: d.public_id@, system_id: d.system_id@ },
        ),
    }
}

pub open spec fn nodes_m(s: Seq<Node>) -> Seq<NodeM>
    decreases s, 1int,
{
    if s.len() == 0 {
        Seq::empty()
    } else {
        seq![node_m(s[0])] + nodes_m(s.subrange(1, s.len() as int))
    }
}

/// The model of a node list is the pointwise model of its nodes.
pub broadcast proof fn lemma_nodes_m(s: Seq<Node>)
    ensures
        (#[trigger] nodes_m(s)).len() == s.len(),
        forall|i: int| 0 <= i < s.len() ==> nodes_m(s)[i] == node_m(s[i]),
    decreases s.len(),
{
    if s.len() > 0 {
        lemma_nodes_m(s.subrange(1, s.len() as int));
        assert forall|i: int| 0 <= i < s.len() implies nodes_m(s)[i] == node_m(s[i]) by {
            if i > 0 {
                assert(s.subrange(1, s.len() as int)[i - 1] == s[i]);
            }
        }
    }
}

impl View for Document {
    type V = Seq<NodeM>;

    open spec fn view(&self) -> Seq<NodeM> {
        nodes_m(self.nodes@)
    }
}

/// The model of a node list splits around its first node.
pub broadcast proof fn lemma_nodes_m_cons(x: Node, s: Seq<Node>)
    ensures
        #[trigger] nodes_m(seq![x] + s) == seq![node_m(x)] + nodes_m(s),
{
    let t = seq![x] + s;
    assert(t[0] == x);
    assert(t.subrange(1, t.len() as int) =~= s);
}

/// Pushing a string onto a list appends its view to the list's model.
pub broadcast proof fn lemma_strs_m_push(s: Seq<String>, x: String)
    ensures
        #[trigger] strs_m(s.push(x)) == strs_m(s).push(x@),
{
    assert forall|k: int| 0 <= k < s.len() + 1 implies strs_m(s.push(x))[k] == strs_m(s).push(
        x@,
    )[k] by {
        if k < s.len() {
            assert(s.push(x)[k] == s[k]);
        } else {
            assert(s.push(x)[k] == x);
        }
    }
    assert(strs_m(s.push(x)) =~= strs_m(s).push(x@));
}

/// The value of the first attribute named `name` at or after index `i`.
pub open spec fn attr_value_from(attrs: Seq<AttrM>, name: Seq<char>, i: int) -> Option<Seq<char>>
    decreases attrs.len() - i,
{
    if i < 0 || i >= attrs.len() {
        None
    } else if attrs[i].name == name {
        Some(attrs[i].value)
    } else {
        attr_value_from(attrs, name, i + 1)
    }
}

/// The value of the first attribute named `name`, if any.
pub open spec fn attr_value(attrs: Seq<AttrM>, name: Seq<char>) -> Option<Seq<char>> {
    attr_value_from(attrs, name, 0)
}

pub open spec fn has_attr(attrs: Seq<AttrM>, name: Seq<char>) -> bool {
    attr_value(attrs, name) is Some
}

/// Every attribute named `name` gets the value `value`; the rest, and
/// the order, are untouched.
pub open spec fn set_attr(attrs: Seq<AttrM>, name: Seq<char>, value: Seq<char>) -> Seq<AttrM> {
    Seq::new(
        attrs.len(),
        |i: int|
            if attrs[i].name == name {
                AttrM { name: attrs[i].name, value }
            } else {
                attrs[i]
            },
    )
}

/// The attributes at or after index `i`, without those named `name`.
pub open spec fn remove_attr_from(attrs: Seq<AttrM>, name: Seq<char>, i: int) -> Seq<AttrM>
    decreases attrs.len() - i,
{
    if i < 0 || i >= attrs.len() {
        Seq::empty()
    } else if attrs[i].name == name {
        remove_attr_from(attrs, name, i + 1)
    } else {
        seq![attrs[i]] + remove_attr_from(attrs, name, i + 1)
    }
}

/// The attributes without those named `name`, order untouched.
pub open spec fn remove_attr(attrs: Seq<AttrM>, name: Seq<char>) -> Seq<AttrM> {
    remove_attr_from(attrs, name, 0)
}

/// No attribute at or after `i` is named `name` exactly when the
/// lookup from `i` finds nothing.
pub proof fn lemma_attr_value_from_none(attrs: Seq<AttrM>, name: Seq<char>, i: int)
    requires
        0 <= i <= attrs.len(),
    ensures
        (attr_value_from(attrs, name, i) is None) <==> (forall|k: int|
            i <= k < attrs.len() ==> attrs[k].name != name),
    decreases attrs.len() - i,
{
    if i < attrs.len() {
        lemma_attr_value_from_none(attrs, name, i + 1);
    }
}

/// Setting `name` rewrites exactly the looked-up value: the lookup of
/// `name` finds the new value where it found one before, and the
/// lookup of any other name is untouched.
pub proof fn lemma_attr_value_from_set(
    attrs: Seq<AttrM>,
    name: Seq<char>,
    value: Seq<char>,
    other: Seq<char>,
    i: int,
)
    requires
        0 <= i <= attrs.len(),
    ensures
        attr_value_from(set_attr(attrs, name, value), name, i) == (match attr_value_from(
            attrs,
            name,
            i,
        ) {
            Some(_) => Some(value),
            None => None,
        }),
        other != name ==> attr_value_from(set_attr(attrs, name, value), other, i)
            == attr_value_from(attrs, other, i),
    decreases attrs.len() - i,
{
    if i < attrs.len() {
        lemma_attr_value_from_set(attrs, name, value, other, i + 1);
    }
}

/// Every attribute that removal keeps has another name.
pub proof fn lemma_remove_attr_from_names(attrs: Seq<AttrM>, name: Seq<char>, i: int)
    requires
        0 <= i <= attrs.len(),
    ensures
        forall|j: int|
            0 <= j < remove_attr_from(attrs, name, i).len() ==> (#[trigger] remove_attr_from(
                attrs,
                name,
                i,
            )[j]).name != name,
    decreases attrs.len() - i,
{
    if i < attrs.len() {
        lemma_remove_attr_from_names(attrs, name, i + 1);
        let rest = remove_attr_from(attrs, name, i + 1);
        if attrs[i].name != name {
            assert forall|j: int|
                0 <= j < remove_attr_from(attrs, name, i).len() implies (#[trigger] remove_attr_from(
                attrs,
                name,
                i,
            )[j]).name != name by {
                if j > 0 {
                    assert(remove_attr_from(attrs, name, i)[j] == rest[j - 1]);
                }
            }
        }
    }
}

/// After removing `name`, looking it up finds nothing.
pub proof fn lemma_remove_attr_absent(attrs: Seq<AttrM>, name: Seq<char>)
    ensures
        !has_attr(remove_attr(attrs, name), name),
{
    lemma_remove_attr_from_names(attrs, name, 0);
    lemma_attr_value_from_none(remove_attr(attrs, name), name, 0);
}

/// Removing attributes no attribute carries changes nothing.
pub proof fn lemma_remove_attr_from_all_other(attrs: Seq<AttrM>, name: Seq<char>, i: int)
    requires
        0 <= i <= attrs.len(),
        forall|k: int| i <= k < attrs.len() ==> attrs[k].name != name,
    ensures
        remove_attr_from(attrs, name, i) == attrs.skip(i),
    decreases attrs.len() - i,
{
    if i < attrs.len() {
        lemma_remove_attr_from_all_other(attrs, name, i + 1);
        assert(remove_attr_from(attrs, name, i) =~= attrs.skip(i));
    } else {
        assert(remove_attr_from(attrs, name, i) =~= attrs.skip(i));
    }
}

/// Removing an absent attribute leaves the list as it was.
pub proof fn lemma_remove_attr_absent_noop(attrs: Seq<AttrM>, name: Seq<char>)
    requires
        !has_attr(attrs, name),
    ensures
        remove_attr(attrs, name) == attrs,
{
    lemma_attr_value_from_none(attrs, name, 0);
    lemma_remove_attr_from_all_other(attrs, name, 0);
    assert(attrs.skip(0) =~= attrs);
}

/// The lookup from position `j + 1` of a list with one attribute in
/// front is the lookup from `j` of the rest.
proof fn lemma_attr_value_from_shift(a: AttrM, t: Seq<AttrM>, name: Seq<char>, j: int)
    requires
        0 <= j <= t.len(),
    ensures
        attr_value_from(seq![a] + t, name, j + 1) == attr_value_from(t, name, j),
    decreases t.len() - j,
{
    let s = seq![a] + t;
    if j < t.len() {
        assert(s[j + 1] == t[j]);
        lemma_attr_value_from_shift(a, t, name, j + 1);
    }
}

/// Removing one name does not change what the lookup of another name
/// finds.
pub proof fn lemma_remove_attr_keeps_other(
    attrs: Seq<AttrM>,
    name: Seq<char>,
    other: Seq<char>,
    i: int,
)
    requires
        0 <= i <= attrs.len(),
        other != name,
    ensures
        attr_value(remove_attr_from(attrs, name, i), other) == attr_value_from(attrs, other, i),
    decreases attrs.len() - i,
{
    if i < attrs.len() {
        lemma_remove_attr_keeps_other(attrs, name, other, i + 1);
        if attrs[i].name != name {
            let rest = remove_attr_from(attrs, name, i + 1);
            lemma_attr_value_from_shift(attrs[i], rest, other, 0);
            assert(attr_value_from(seq![attrs[i]] + rest, other, 0) == (if attrs[i].name == other {
                Some(attrs[i].value)
            } else {
                attr_value_from(seq![attrs[i]] + rest, other, 1)
            }));
        }
    }
}

/// The value of the first attribute named `name`, cloned out of the list.
pub fn attr_get(attrs: &Vec<Attr>, name: &str) -> (r: Option<String>)
    ensures
        match r {
            Some(v) => attr_value(attrs_m(attrs@), name@) == Some(v@),
            None => attr_value(attrs_m(attrs@), name@) is None,
        },
{
    let ghost m = attrs_m(attrs@);
    let mut i: usize = 0;
    while i < attrs.len()
        invariant
            i <= attrs.len(),
            m == attrs_m(attrs@),
            m.len() == attrs@.len(),
            attr_value_from(m, name@, 0) == attr_value_from(m, name@, i as int),
        decreases attrs.len() - i,
    {
        if crate::text::str_eq(attrs[i].name.as_str(), name) {
            return Some(attrs[i].value.clone());
        }
        i += 1;
    }
    None
}

/// A copy of the attributes in which every attribute named `name`
/// carries the value `value`.
pub fn attrs_with_set(attrs: &Vec<Attr>, name: &str, value: &str) -> (r: Vec<Attr>)
    ensures
        attrs_m(r@) == set_attr(attrs_m(attrs@), name@, value@),
{
    let ghost m = attrs_m(attrs@);
    let mut r: Vec<Attr> = Vec::new();
    let mut i: usize = 0;
    while i < attrs.len()
        invariant
            i <= attrs.len(),
            m == attrs_m(attrs@),
            m.len() == attrs@.len(),
            attrs_m(r@) =~= set_attr(m, name@, value@).subrange(0, i as int),
        decreases attrs.len() - i,
    {
        let ghost prev = r@;
        let a = if crate::text::str_eq(attrs[i].name.as_str(), name) {
            Attr { name: attrs[i].name.clone(), value: value.to_owned() }
        } else {
            Attr { name: attrs[i].name.clone(), value: attrs[i].value.clone() }
        };
        let ghost ga = a;
        r.push(a);
        proof {
            let sa = set_attr(m, name@, value@);
            assert(attr_m(ga) == sa[i as int]);
            assert(r@ == prev.push(ga));
            assert(attrs_m(prev).len() == prev.len());
            assert(prev.len() == i as int);
            assert(r@.len() == i + 1);
            assert forall|k: int| 0 <= k < i + 1 implies attrs_m(r@)[k] == sa[k] by {
                assert(attrs_m(r@)[k] == attr_m(r@[k]));
                if k < i {
                    assert(r@[k] == prev[k]);
                    assert(attrs_m(prev)[k] == attr_m(prev[k]));
                    assert(attrs_m(prev)[k] == sa.subrange(0, i as int)[k]);
                } else {
                    assert(r@[k] == ga);
                }
            }
            assert(attrs_m(r@) =~= sa.subrange(0, i + 1));
        }
        i += 1;
    }
    proof {
        assert(set_attr(m, name@, value@).subrange(0, m.len() as int) =~= set_attr(
            m,
            name@,
            value@,
        ));
    }
    r
}

/// A copy of the attributes, model for model.
pub fn attrs_copy(attrs: &Vec<Attr>) -> (r: Vec<Attr>)
    ensures
        attrs_m(r@) == attrs_m(attrs@),
{
    let ghost m = attrs_m(attrs@);
    let mut r: Vec<Attr> = Vec::new();
    let mut i: usize = 0;
    while i < attrs.len()
        invariant
            i <= attrs.len(),
            m == attrs_m(attrs@),
            m.len() == attrs@.len(),
            attrs_m(r@) =~= m.subrange(0, i as int),
        decreases attrs.len() - i,
    {
        let ghost prev = r@;
        let a = Attr { name: attrs[i].name.clone(), value: attrs[i].value.clone() };
        let ghost ga = a;
        r.push(a);
        proof {
            assert(attrs_m(prev).len() == prev.len());
            assert(prev.len() == i as int);
            assert(r@.len() == i + 1);
            assert forall|k: int| 0 <= k < i + 1 implies attrs_m(r@)[k] == m[k] by {
                assert(attrs_m(r@)[k] == attr_m(r@[k]));
                if k < i {
                    assert(r@[k] == prev[k]);
                    assert(attrs_m(prev)[k] == attr_m(prev[k]));
                    assert(attrs_m(prev)[k] == m.subrange(0, i as int)[k]);
                } else {
                    assert(r@[k] == ga);
                }
            }
            assert(attrs_m(r@) =~= m.subrange(0, i + 1));
        }
        i += 1;
    }
    proof {
        assert(m.subrange(0, m.len() as int) =~= m);
    }
    r
}

/// A copy of the attributes without those named `name`.
pub fn attrs_without(attrs: &Vec<Attr>, name: &str) -> (r: Vec<Attr>)
    ensures
        attrs_m(r@) == remove_attr(attrs_m(attrs@), name@),
{
    let ghost m = attrs_m(attrs@);
    let mut r: Vec<Attr> = Vec::new();
    let mut i: usize = 0;
    while i < attrs.len()
        invariant
            i <= attrs.len(),
            m == attrs_m(attrs@),
            m.len() == attrs@.len(),
            remove_attr_from(m, name@, 0) =~= attrs_m(r@) + remove_attr_from(m, name@, i as int),
        decreases attrs.len() - i,
    {
        if !crate::text::str_eq(attrs[i].name.as_str(), name) {
            r.push(Attr { name: attrs[i].name.clone(), value: attrs[i].value.clone() });
        }
        i += 1;
        proof {
            assert(remove_attr_from(m, name@, 0) =~= attrs_m(r@) + remove_attr_from(
                m,
                name@,
                i as int,
            ));
        }
    }
    r
}

/// A deep copy of a node, model for model.
pub fn node_copy(n: &Node) -> (r: Node)
    ensures
        node_m(r) == node_m(*n),
    decreases n, 0int, 0int,
{
    match n {
        Node::Element(e) => {
            let children = nodes_copy_from(&e.children, 0);
            proof {
                assert(nodes_m(e.children@).skip(0) =~= nodes_m(e.children@));
            }
            Node::Element(Elem { name: e.name.clone(), attrs: attrs_copy(&e.attrs), children })
        },
        Node::Text(t) => Node::Text(t.clone()),
        Node::Comment(t) => Node::Comment(t.clone()),
        Node::Doctype(d) => Node::Doctype(
            Doctype {
                name: d.name.clone(),
                public_id: d.public_id.clone(),
                system_id: d.system_id.clone(),
            },
        ),
    }
}

/// A deep copy of the nodes from index `i` on.
pub fn nodes_copy_from(nodes: &Vec<Node>, i: usize) -> (r: Vec<Node>)
    requires
        i <= nodes@.len(),
    ensures
        nodes_m(r@) == nodes_m(nodes@).skip(i as int),
    decreases nodes@, nodes@.len() - i, 1int,
{
    broadcast use lemma_nodes_m;

    let ghost s = nodes_m(nodes@);
    if i < nodes.len() {
        let h = node_copy(&nodes[i]);
        let ghost gh = h;
        let mut rest = nodes_copy_from(nodes, i + 1);
        let ghost grest = rest@;
        let mut out: Vec<Node> = Vec::new();
        out.push(h);
        out.append(&mut rest);
        proof {
            assert(out@ == seq![gh] + grest);
            lemma_nodes_m_cons(gh, grest);
            assert(s.skip(i as int)[0] == node_m(nodes@[i as int]));
            assert(nodes_m(out@) =~= s.skip(i as int));
        }
        out
    } else {
        let out: Vec<Node> = Vec::new();
        proof {
            assert(nodes_m(out@) =~= s.skip(i as int));
        }
        out
    }
}

} // verus!
