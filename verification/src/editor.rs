//! The tree editor: the two inlining passes over the document.
//!
//! The image pass rewrites the `src` of every `img` element whose
//! reference is not yet inlined and strips `srcset`; the stylesheet
//! pass replaces every `link rel="stylesheet"` that loads with a
//! `style` element holding the trimmed text. Both passes visit the
//! tree in document order, consume one load outcome per reference,
//! and record one failure-log entry per failed load, in that order.
use vstd::prelude::*;
use crate::classify::RefClass;
use crate::classify::spec_classify;
use crate::classify::classify;
use crate::dom::Attr;
use crate::dom::AttrM;
use crate::dom::Doctype;
use crate::dom::Document;
use crate::dom::Elem;
use crate::dom::ElemM;
use crate::dom::Node;
use crate::dom::NodeM;
use crate::dom::attr_get;
use crate::dom::attrs_copy;
use crate::dom::lemma_nodes_m_cons;
use crate::dom::attr_value;
use crate::dom::attrs_m;
use crate::dom::attrs_with_set;
use crate::dom::attrs_without;
use crate::dom::lemma_nodes_m;
use crate::dom::node_m;
use crate::dom::nodes_m;
use crate::dom::remove_attr;
use crate::dom::set_attr;
use crate::dom::strs_m;
use crate::encode::encode_m;
use crate::encode::encode_data_uri;
use crate::text::image_fail_msg;
use crate::text::style_fail_msg;
use crate::text::image_fail_message;
use crate::text::style_fail_message;
use crate::text::trim_m;
use crate::text::trim;
use crate::text::str_eq;

verus! {

// ---------------------------------------------------------------- selection
/// The `src` of an image element: present when the tag is `img` and a
/// `src` attribute is there.
pub open spec fn img_src(e: ElemM) -> Option<Seq<char>> {
    if e.name == "img"@ {
        attr_value(e.attrs, "src"@)
    } else {
        None
    }
}

/// Whether the image pass loads for this element: an `img` with a
/// `src` that is not already inlined.
pub open spec fn img_needs_load(e: ElemM) -> bool {
    match img_src(e) {
        Some(r) => spec_classify(r) != RefClass::AlreadyInlined,
        None => false,
    }
}

/// The `href` of a stylesheet link: present when the tag is `link`,
/// `rel` equals `stylesheet` exactly, and an `href` attribute is there.
pub open spec fn style_href(e: ElemM) -> Option<Seq<char>> {
    if e.name == "link"@ && attr_value(e.attrs, "rel"@) == Some("stylesheet"@) {
        attr_value(e.attrs, "href"@)
    } else {
        None
    }
}

// ------------------------------------------------------------- references
/// The references the image pass loads in this subtree, in document
/// (depth-first, pre-order) order.
pub open spec fn img_refs_node(n: NodeM) -> Seq<Seq<char>>
    decreases n, 0int,
{
    match n {
        NodeM::Element(e) => (match img_src(e) {
            Some(r) => if img_needs_load(e) {
                seq![r]
            } else {
                Seq::empty()
            },
            None => Seq::empty(),
        }) + img_refs_nodes(e.children),
        _ => Seq::empty(),
    }
}

pub open spec fn img_refs_nodes(s: Seq<NodeM>) -> Seq<Seq<char>>
    decreases s, 1int,
{
    if s.len() == 0 {
        Seq::empty()
    } else {
        img_refs_node(s[0]) + img_refs_nodes(s.subrange(1, s.len() as int))
    }
}

/// The references the stylesheet pass loads in this subtree, in
/// document order. A matching link is replaced whole, so nothing
/// below it is visited.
pub open spec fn style_refs_node(n: NodeM) -> Seq<Seq<char>>
    decreases n, 0int,
{
    match n {
        NodeM::Element(e) => match style_href(e) {
            Some(r) => seq![r],
            None => style_refs_nodes(e.children),
        },
        _ => Seq::empty(),
    }
}

pub open spec fn style_refs_nodes(s: Seq<NodeM>) -> Seq<Seq<char>>
    decreases s, 1int,
{
    if s.len() == 0 {
        Seq::empty()
    } else {
        style_refs_node(s[0]) + style_refs_nodes(s.subrange(1, s.len() as int))
    }
}

// ------------------------------------------------------------- image pass
/// What the image pass leaves of one element's attributes, `c` being
/// the index of the element's outcome. A loaded image gets its `src`
/// replaced by the encoded data URI; every processed image loses its
/// `srcset`; everything else keeps its attributes.
pub open spec fn inline_img_attrs(
    e: ElemM,
    o: Seq<Result<Seq<u8>, Seq<char>>>,
    c: int,
) -> Seq<AttrM> {
    if img_needs_load(e) {
        if 0 <= c < o.len() {
            match o[c] {
                Ok(bytes) => remove_attr(set_attr(e.attrs, "src"@, encode_m(bytes)), "srcset"@),
                Err(_) => remove_attr(e.attrs, "srcset"@),
            }
        } else {
            remove_attr(e.attrs, "srcset"@)
        }
    } else if img_src(e) is Some {
        remove_attr(e.attrs, "srcset"@)
    } else {
        e.attrs
    }
}

/// The image pass over one node: outcome `c` belongs to this node's
/// own reference, if it has one; the children consume the outcomes
/// after it.
pub open spec fn apply_img_node(n: NodeM, o: Seq<Result<Seq<u8>, Seq<char>>>, c: int) -> NodeM
    decreases n, 0int,
{
    match n {
        NodeM::Element(e) => NodeM::Element(
            ElemM {
                name: e.name,
                attrs: inline_img_attrs(e, o, c),
                children: apply_img_nodes(
                    e.children,
                    o,
                    c + if img_needs_load(e) {
                        1int
                    } else {
                        0int
                    },
                ),
            },
        ),
        _ => n,
    }
}

pub open spec fn apply_img_nodes(s: Seq<NodeM>, o: Seq<Result<Seq<u8>, Seq<char>>>, c: int) -> Seq<
    NodeM,
>
    decreases s, 1int,
{
    if s.len() == 0 {
        Seq::empty()
    } else {
        seq![apply_img_node(s[0], o, c)] + apply_img_nodes(
            s.subrange(1, s.len() as int),
            o,
            c + img_refs_node(s[0]).len(),
        )
    }
}

/// The failure-log entries of the image pass in this subtree, in
/// document order.
pub open spec fn img_fails_node(n: NodeM, o: Seq<Result<Seq<u8>, Seq<char>>>, c: int) -> Seq<
    Seq<char>,
>
    decreases n, 0int,
{
    match n {
        NodeM::Element(e) => (if img_needs_load(e) && 0 <= c < o.len() {
            match o[c] {
                Ok(_) => Seq::empty(),
                Err(cause) => match img_src(e) {
                    Some(r) => seq![image_fail_msg(r, cause)],
                    None => Seq::empty(),
                },
            }
        } else {
            Seq::empty()
        }) + img_fails_nodes(
            e.children,
            o,
            c + if img_needs_load(e) {
                1int
            } else {
                0int
            },
        ),
        _ => Seq::empty(),
    }
}

pub open spec fn img_fails_nodes(s: Seq<NodeM>, o: Seq<Result<Seq<u8>, Seq<char>>>, c: int) -> Seq<
    Seq<char>,
>
    decreases s, 1int,
{
    if s.len() == 0 {
        Seq::empty()
    } else {
        img_fails_node(s[0], o, c) + img_fails_nodes(
            s.subrange(1, s.len() as int),
            o,
            c + img_refs_node(s[0]).len(),
        )
    }
}

// --------------------------------------------------------- stylesheet pass
/// The inline `style` element that replaces a loaded stylesheet link:
/// no attributes, one text child holding the trimmed stylesheet text.
pub open spec fn style_elem_m(text: Seq<char>) -> NodeM {
    NodeM::Element(
        ElemM { name: "style"@, attrs: Seq::empty(), children: seq![NodeM::Text(trim_m(text))] },
    )
}

/// The stylesheet pass over one node: a matching link whose load
/// succeeded becomes a `style` element in its place; one whose load
/// failed stays as it is; everything else keeps its place and its
/// attributes, and its children are visited.
pub open spec fn apply_style_node(n: NodeM, o: Seq<Result<Seq<char>, Seq<char>>>, c: int) -> NodeM
    decreases n, 0int,
{
    match n {
        NodeM::Element(e) => match style_href(e) {
            Some(_) => if 0 <= c < o.len() {
                match o[c] {
                    Ok(text) => style_elem_m(text),
                    Err(_) => n,
                }
            } else {
                n
            },
            None => NodeM::Element(
                ElemM { name: e.name, attrs: e.attrs, children: apply_style_nodes(e.children, o, c) },
            ),
        },
        _ => n,
    }
}

pub open spec fn apply_style_nodes(
    s: Seq<NodeM>,
    o: Seq<Result<Seq<char>, Seq<char>>>,
    c: int,
) -> Seq<NodeM>
    decreases s, 1int,
{
    if s.len() == 0 {
        Seq::empty()
    } else {
        seq![apply_style_node(s[0], o, c)] + apply_style_nodes(
            s.subrange(1, s.len() as int),
            o,
            c + style_refs_node(s[0]).len(),
        )
    }
}

/// The failure-log entries of the stylesheet pass in this subtree, in
/// document order.
pub open spec fn style_fails_node(n: NodeM, o: Seq<Result<Seq<char>, Seq<char>>>, c: int) -> Seq<
    Seq<char>,
>
    decreases n, 0int,
{
    match n {
        NodeM::Element(e) => match style_href(e) {
            Some(r) => if 0 <= c < o.len() {
                match o[c] {
                    Ok(_) => Seq::empty(),
                    Err(cause) => seq![style_fail_msg(r, cause)],
                }
            } else {
                Seq::empty()
            },
            None => style_fails_nodes(e.children, o, c),
        },
        _ => Seq::empty(),
    }
}

pub open spec fn style_fails_nodes(
    s: Seq<NodeM>,
    o: Seq<Result<Seq<char>, Seq<char>>>,
    c: int,
) -> Seq<Seq<char>>
    decreases s, 1int,
{
    if s.len() == 0 {
        Seq::empty()
    } else {
        style_fails_node(s[0], o, c) + style_fails_nodes(
            s.subrange(1, s.len() as int),
            o,
            c + style_refs_node(s[0]).len(),
        )
    }
}

// ------------------------------------------------------------ whole document
/// The ghost model of a list of image-load outcomes.
pub open spec fn img_outs_m(v: Seq<Result<Vec<u8>, String>>) -> Seq<Result<Seq<u8>, Seq<char>>> {
    Seq::new(
        v.len(),
        |i: int|
            match v[i] {
                Ok(b) => Ok(b@),
                Err(e) => Err(e@),
            },
    )
}

/// The ghost model of a list of stylesheet-load outcomes.
pub open spec fn style_outs_m(v: Seq<Result<String, String>>) -> Seq<
    Result<Seq<char>, Seq<char>>,
> {
    Seq::new(
        v.len(),
        |i: int|
            match v[i] {
                Ok(t) => Ok(t@),
                Err(e) => Err(e@),
            },
    )
}

// ------------------------------------------------------------- collection
/// Append the image references of this subtree to `acc`.
fn img_refs_node_x(n: &Node, acc: &mut Vec<String>)
    ensures
        strs_m(final(acc)@) == strs_m(old(acc)@) + img_refs_node(node_m(*n)),
    decreases n, 0int, 0int,
{
    broadcast use crate::dom::lemma_strs_m_push;

    let ghost a0 = acc@;
    match n {
        Node::Element(e) => {
            let ghost em = ElemM {
                name: e.name@,
                attrs: attrs_m(e.attrs@),
                children: nodes_m(e.children@),
            };
            if str_eq(e.name.as_str(), "img") {
                match attr_get(&e.attrs, "src") {
                    Some(src) => {
                        if !matches!(classify(src.as_str()), RefClass::AlreadyInlined) {
                            let ghost gsrc = src;
                            proof {
                                assert(img_src(em) == Some(src@));
                                assert(img_needs_load(em));
                            }
                            acc.push(src);
                            proof {
                                assert(acc@ == a0.push(gsrc));
                                assert(strs_m(a0.push(gsrc)) == strs_m(a0).push(gsrc@));
                            }
                        }
                    },
                    None => {},
                }
            }
            let ghost mid = acc@;
            img_refs_children_x(&e.children, 0, acc);
            proof {
                assert(nodes_m(e.children@).skip(0) =~= nodes_m(e.children@));
                assert(strs_m(acc@) == strs_m(mid) + img_refs_nodes(em.children));
                assert(strs_m(acc@) =~= strs_m(a0) + img_refs_node(node_m(*n)));
            }
        },
        _ => {
            proof {
                assert(strs_m(acc@) =~= strs_m(a0) + img_refs_node(node_m(*n)));
            }
        },
    }
}

fn img_refs_children_x(nodes: &Vec<Node>, i: usize, acc: &mut Vec<String>)
    requires
        i <= nodes@.len(),
    ensures
        strs_m(final(acc)@) == strs_m(old(acc)@) + img_refs_nodes(nodes_m(nodes@).skip(i as int)),
    decreases nodes@, nodes@.len() - i, 1int,
{
    broadcast use lemma_nodes_m;

    let ghost s = nodes_m(nodes@);
    if i < nodes.len() {
        let ghost a0 = acc@;
        img_refs_node_x(&nodes[i], acc);
        img_refs_children_x(nodes, i + 1, acc);
        proof {
            assert(s.skip(i as int).subrange(1, s.skip(i as int).len() as int) =~= s.skip(
                i + 1,
            ));
            assert(s.skip(i as int)[0] == node_m(nodes@[i as int]));
            assert(img_refs_nodes(s.skip(i as int)) == img_refs_node(node_m(nodes@[i as int]))
                + img_refs_nodes(s.skip(i + 1)));
            assert(strs_m(acc@) =~= strs_m(a0) + img_refs_nodes(s.skip(i as int)));
        }
    } else {
        proof {
            assert(s.skip(i as int) =~= Seq::<NodeM>::empty());
            assert(strs_m(acc@) =~= strs_m(acc@) + img_refs_nodes(s.skip(i as int)));
        }
    }
}

/// Append the stylesheet references of this subtree to `acc`.
fn style_refs_node_x(n: &Node, acc: &mut Vec<String>)
    ensures
        strs_m(final(acc)@) == strs_m(old(acc)@) + style_refs_node(node_m(*n)),
    decreases n, 0int, 0int,
{
    broadcast use crate::dom::lemma_strs_m_push;

    let ghost a0 = acc@;
    match n {
        Node::Element(e) => {
            let ghost em = ElemM {
                name: e.name@,
                attrs: attrs_m(e.attrs@),
                children: nodes_m(e.children@),
            };
            let rel_ok = if str_eq(e.name.as_str(), "link") {
                match attr_get(&e.attrs, "rel") {
                    Some(v) => str_eq(v.as_str(), "stylesheet"),
                    None => false,
                }
            } else {
                false
            };
            let href = if rel_ok {
                attr_get(&e.attrs, "href")
            } else {
                None
            };
            match href {
                Some(h) => {
                    let ghost gh = h;
                    proof {
                        assert(style_href(em) == Some(h@));
                    }
                    acc.push(h);
                    proof {
                        assert(acc@ == a0.push(gh));
                        assert(strs_m(a0.push(gh)) == strs_m(a0).push(gh@));
                        assert(strs_m(acc@) =~= strs_m(a0) + style_refs_node(node_m(*n)));
                    }
                },
                None => {
                    proof {
                        assert(style_href(em) is None);
                    }
                    style_refs_children_x(&e.children, 0, acc);
                    proof {
                        assert(nodes_m(e.children@).skip(0) =~= nodes_m(e.children@));
                        assert(strs_m(acc@) =~= strs_m(a0) + style_refs_node(node_m(*n)));
                    }
                },
            }
        },
        _ => {
            proof {
                assert(strs_m(acc@) =~= strs_m(a0) + style_refs_node(node_m(*n)));
            }
        },
    }
}

fn style_refs_children_x(nodes: &Vec<Node>, i: usize, acc: &mut Vec<String>)
    requires
        i <= nodes@.len(),
    ensures
        strs_m(final(acc)@) == strs_m(old(acc)@) + style_refs_nodes(
            nodes_m(nodes@).skip(i as int),
        ),
    decreases nodes@, nodes@.len() - i, 1int,
{
    broadcast use lemma_nodes_m;

    let ghost s = nodes_m(nodes@);
    if i < nodes.len() {
        let ghost a0 = acc@;
        style_refs_node_x(&nodes[i], acc);
        style_refs_children_x(nodes, i + 1, acc);
        proof {
            assert(s.skip(i as int).subrange(1, s.skip(i as int).len() as int) =~= s.skip(
                i + 1,
            ));
            assert(s.skip(i as int)[0] == node_m(nodes@[i as int]));
            assert(style_refs_nodes(s.skip(i as int)) == style_refs_node(
                node_m(nodes@[i as int]),
            ) + style_refs_nodes(s.skip(i + 1)));
            assert(strs_m(acc@) =~= strs_m(a0) + style_refs_nodes(s.skip(i as int)));
        }
    } else {
        proof {
            assert(s.skip(i as int) =~= Seq::<NodeM>::empty());
            assert(strs_m(acc@) =~= strs_m(acc@) + style_refs_nodes(s.skip(i as int)));
        }
    }
}

/// Every image reference the image pass will load, in document order.
pub fn image_requests(doc: &Document) -> (r: Vec<String>)
    ensures
        strs_m(r@) == img_refs_nodes(doc@),
{
    let mut acc: Vec<String> = Vec::new();
    img_refs_children_x(&doc.nodes, 0, &mut acc);
    proof {
        assert(nodes_m(doc.nodes@).skip(0) =~= nodes_m(doc.nodes@));
        assert(strs_m(acc@) =~= img_refs_nodes(doc@));
    }
    acc
}

/// Every stylesheet reference the stylesheet pass will load, in
/// document order.
pub fn style_requests(doc: &Document) -> (r: Vec<String>)
    ensures
        strs_m(r@) == style_refs_nodes(doc@),
{
    let mut acc: Vec<String> = Vec::new();
    style_refs_children_x(&doc.nodes, 0, &mut acc);
    proof {
        assert(nodes_m(doc.nodes@).skip(0) =~= nodes_m(doc.nodes@));
        assert(strs_m(acc@) =~= style_refs_nodes(doc@));
    }
    acc
}

// ---------------------------------------------------------- image pass, exec
/// The image pass over one node: rebuilds it with its references
/// inlined, advancing the outcome cursor and appending to the failure
/// log.
fn apply_img_node_x(
    n: &Node,
    outs: &Vec<Result<Vec<u8>, String>>,
    cur: &mut usize,
    fails: &mut Vec<String>,
) -> (r: Node)
    requires
        *old(cur) + img_refs_node(node_m(*n)).len() <= outs@.len(),
    ensures
        node_m(r) == apply_img_node(node_m(*n), img_outs_m(outs@), *old(cur) as int),
        *final(cur) == *old(cur) + img_refs_node(node_m(*n)).len(),
        strs_m(final(fails)@) == strs_m(old(fails)@) + img_fails_node(
            node_m(*n),
            img_outs_m(outs@),
            *old(cur) as int,
        ),
    decreases n, 0int, 0int,
{
    broadcast use crate::dom::lemma_strs_m_push;

    let ghost o = img_outs_m(outs@);
    let ghost c0 = *cur as int;
    let ghost f0 = fails@;
    match n {
        Node::Element(e) => {
            let ghost em = ElemM {
                name: e.name@,
                attrs: attrs_m(e.attrs@),
                children: nodes_m(e.children@),
            };
            proof {
                assert(img_refs_node(node_m(*n)).len() >= img_refs_nodes(em.children).len());
            }
            let src_opt = if str_eq(e.name.as_str(), "img") {
                attr_get(&e.attrs, "src")
            } else {
                None
            };
            let new_attrs: Vec<Attr> = match &src_opt {
                Some(src) => {
                    if !matches!(classify(src.as_str()), RefClass::AlreadyInlined) {
                        proof {
                            assert(img_src(em) == Some(src@));
                            assert(img_needs_load(em));
                            assert(img_refs_node(node_m(*n)) == seq![src@] + img_refs_nodes(
                                em.children,
                            ));
                            assert(img_refs_node(node_m(*n)).len() >= 1);
                        }
                        let idx = *cur;
                        proof {
                            broadcast use vstd::std_specs::vec::axiom_spec_len;

                            assert(idx < outs.len());
                        }
                        *cur = idx + 1;
                        match &outs[idx] {
                            Ok(bytes) => {
                                proof {
                                    assert(o[c0] matches Ok(b) && b == bytes@);
                                }
                                let uri = encode_data_uri(
                                    vstd::slice::slice_to_vec(bytes.as_slice()),
                                );
                                let tmp = attrs_with_set(&e.attrs, "src", uri.as_str());
                                attrs_without(&tmp, "srcset")
                            },
                            Err(cause) => {
                                proof {
                                    assert(o[c0] matches Err(x) && x == cause@);
                                }
                                let msg = image_fail_message(src.as_str(), cause.as_str());
                                let ghost gmsg = msg;
                                fails.push(msg);
                                proof {
                                    assert(fails@ == f0.push(gmsg));
                                    assert(strs_m(f0.push(gmsg)) == strs_m(f0).push(gmsg@));
                                }
                                attrs_without(&e.attrs, "srcset")
                            },
                        }
                    } else {
                        attrs_without(&e.attrs, "srcset")
                    }
                },
                None => attrs_copy(&e.attrs),
            };
            proof {
                assert(attrs_m(new_attrs@) == inline_img_attrs(em, o, c0));
                assert(nodes_m(e.children@).skip(0) =~= nodes_m(e.children@));
                assert(img_refs_node(node_m(*n)).len() == (if img_needs_load(em) {
                    1int
                } else {
                    0int
                }) + img_refs_nodes(em.children).len());
            }
            let new_children = apply_img_children_x(&e.children, 0, outs, cur, fails);
            let r = Node::Element(
                Elem { name: e.name.clone(), attrs: new_attrs, children: new_children },
            );
            proof {
                assert(nodes_m(e.children@).skip(0) =~= nodes_m(e.children@));
                assert(node_m(r) == apply_img_node(node_m(*n), o, c0));
                assert(strs_m(fails@) =~= strs_m(f0) + img_fails_node(node_m(*n), o, c0));
            }
            r
        },
        Node::Text(t) => {
            let r = Node::Text(t.clone());
            proof {
                assert(node_m(r) == apply_img_node(node_m(*n), o, c0));
                assert(strs_m(fails@) =~= strs_m(f0) + img_fails_node(node_m(*n), o, c0));
            }
            r
        },
        Node::Comment(t) => {
            let r = Node::Comment(t.clone());
            proof {
                assert(node_m(r) == apply_img_node(node_m(*n), o, c0));
                assert(strs_m(fails@) =~= strs_m(f0) + img_fails_node(node_m(*n), o, c0));
            }
            r
        },
        Node::Doctype(d) => {
            let r = Node::Doctype(
                Doctype {
                    name: d.name.clone(),
                    public_id: d.public_id.clone(),
                    system_id: d.system_id.clone(),
                },
            );
            proof {
                assert(node_m(r) == apply_img_node(node_m(*n), o, c0));
                assert(strs_m(fails@) =~= strs_m(f0) + img_fails_node(node_m(*n), o, c0));
            }
            r
        },
    }
}

/// The image pass over the nodes from index `i` on.
fn apply_img_children_x(
    nodes: &Vec<Node>,
    i: usize,
    outs: &Vec<Result<Vec<u8>, String>>,
    cur: &mut usize,
    fails: &mut Vec<String>,
) -> (r: Vec<Node>)
    requires
        i <= nodes@.len(),
        *old(cur) + img_refs_nodes(nodes_m(nodes@).skip(i as int)).len() <= outs@.len(),
    ensures
        nodes_m(r@) == apply_img_nodes(
            nodes_m(nodes@).skip(i as int),
            img_outs_m(outs@),
            *old(cur) as int,
        ),
        *final(cur) == *old(cur) + img_refs_nodes(nodes_m(nodes@).skip(i as int)).len(),
        strs_m(final(fails)@) == strs_m(old(fails)@) + img_fails_nodes(
            nodes_m(nodes@).skip(i as int),
            img_outs_m(outs@),
            *old(cur) as int,
        ),
    decreases nodes@, nodes@.len() - i, 1int,
{
    broadcast use lemma_nodes_m;

    let ghost s = nodes_m(nodes@);
    let ghost o = img_outs_m(outs@);
    let ghost c0 = *cur as int;
    let ghost f0 = fails@;
    if i < nodes.len() {
        proof {
            assert(s.skip(i as int)[0] == node_m(nodes@[i as int]));
            assert(s.skip(i as int).subrange(1, s.skip(i as int).len() as int) =~= s.skip(
                i + 1,
            ));
            assert(img_refs_nodes(s.skip(i as int)) == img_refs_node(node_m(nodes@[i as int]))
                + img_refs_nodes(s.skip(i + 1)));
        }
        let h = apply_img_node_x(&nodes[i], outs, cur, fails);
        let ghost gh = h;
        let mut rest = apply_img_children_x(nodes, i + 1, outs, cur, fails);
        let ghost grest = rest@;
        let mut out: Vec<Node> = Vec::new();
        out.push(h);
        out.append(&mut rest);
        proof {
            assert(out@ == seq![gh] + grest);
            assert(nodes_m(seq![gh] + grest) == seq![node_m(gh)] + nodes_m(grest)) by {
                lemma_nodes_m_cons(gh, grest);
            }
            assert(nodes_m(out@) =~= apply_img_nodes(s.skip(i as int), o, c0));
            assert(strs_m(fails@) =~= strs_m(f0) + img_fails_nodes(s.skip(i as int), o, c0));
        }
        out
    } else {
        proof {
            assert(s.skip(i as int) =~= Seq::<NodeM>::empty());
        }
        let out: Vec<Node> = Vec::new();
        proof {
            assert(nodes_m(out@) =~= apply_img_nodes(s.skip(i as int), o, c0));
            assert(strs_m(fails@) =~= strs_m(f0) + img_fails_nodes(s.skip(i as int), o, c0));
        }
        out
    }
}

// ------------------------------------------------------ stylesheet pass, exec
/// The stylesheet pass over one node: replaces loaded links with
/// inline `style` elements, advancing the outcome cursor and
/// appending to the failure log.
fn apply_style_node_x(
    n: &Node,
    outs: &Vec<Result<String, String>>,
    cur: &mut usize,
    fails: &mut Vec<String>,
) -> (r: Node)
    requires
        *old(cur) + style_refs_node(node_m(*n)).len() <= outs@.len(),
    ensures
        node_m(r) == apply_style_node(node_m(*n), style_outs_m(outs@), *old(cur) as int),
        *final(cur) == *old(cur) + style_refs_node(node_m(*n)).len(),
        strs_m(final(fails)@) == strs_m(old(fails)@) + style_fails_node(
            node_m(*n),
            style_outs_m(outs@),
            *old(cur) as int,
        ),
    decreases n, 0int, 0int,
{
    broadcast use crate::dom::lemma_strs_m_push;

    let ghost o = style_outs_m(outs@);
    let ghost c0 = *cur as int;
    let ghost f0 = fails@;
    match n {
        Node::Element(e) => {
            let ghost em = ElemM {
                name: e.name@,
                attrs: attrs_m(e.attrs@),
                children: nodes_m(e.children@),
            };
            let rel_ok = if str_eq(e.name.as_str(), "link") {
                match attr_get(&e.attrs, "rel") {
                    Some(v) => str_eq(v.as_str(), "stylesheet"),
                    None => false,
                }
            } else {
                false
            };
            let href = if rel_ok {
                attr_get(&e.attrs, "href")
            } else {
                None
            };
            match href {
                Some(h) => {
                    proof {
                        assert(style_href(em) == Some(h@));
                        assert(style_refs_node(node_m(*n)) == seq![h@]);
                    }
                    let idx = *cur;
                    proof {
                        broadcast use vstd::std_specs::vec::axiom_spec_len;

                        assert(idx < outs.len());
                    }
                    *cur = idx + 1;
                    match &outs[idx] {
                        Ok(text) => {
                            proof {
                                assert(o[c0] matches Ok(t) && t == text@);
                            }
                            let trimmed = trim(text.as_str());
                            let mut ch: Vec<Node> = Vec::new();
                            ch.push(Node::Text(trimmed));
                            let ghost gch = ch@;
                            let empty_attrs: Vec<Attr> = Vec::new();
                            let ghost gattrs = empty_attrs@;
                            let r = Node::Element(
                                Elem {
                                    name: String::from_str("style"),
                                    attrs: empty_attrs,
                                    children: ch,
                                },
                            );
                            proof {
                                broadcast use lemma_nodes_m;

                                assert(attrs_m(gattrs) =~= Seq::<AttrM>::empty());
                                assert(nodes_m(gch) =~= seq![NodeM::Text(trim_m(text@))]);
                                assert(node_m(r) =~= style_elem_m(text@));
                                assert(strs_m(fails@) =~= strs_m(f0) + style_fails_node(
                                    node_m(*n),
                                    o,
                                    c0,
                                ));
                            }
                            r
                        },
                        Err(cause) => {
                            proof {
                                assert(o[c0] matches Err(x) && x == cause@);
                            }
                            let msg = style_fail_message(h.as_str(), cause.as_str());
                            let ghost gmsg = msg;
                            fails.push(msg);
                            let r = crate::dom::node_copy(n);
                            proof {
                                assert(fails@ == f0.push(gmsg));
                                assert(strs_m(f0.push(gmsg)) == strs_m(f0).push(gmsg@));
                                assert(strs_m(fails@) =~= strs_m(f0) + style_fails_node(
                                    node_m(*n),
                                    o,
                                    c0,
                                ));
                            }
                            r
                        },
                    }
                },
                None => {
                    proof {
                        assert(style_href(em) is None);
                        assert(nodes_m(e.children@).skip(0) =~= nodes_m(e.children@));
                    }
                    let new_children = apply_style_children_x(&e.children, 0, outs, cur, fails);
                    let r = Node::Element(
                        Elem {
                            name: e.name.clone(),
                            attrs: attrs_copy(&e.attrs),
                            children: new_children,
                        },
                    );
                    proof {
                        assert(node_m(r) == apply_style_node(node_m(*n), o, c0));
                        assert(strs_m(fails@) =~= strs_m(f0) + style_fails_node(
                            node_m(*n),
                            o,
                            c0,
                        ));
                    }
                    r
                },
            }
        },
        Node::Text(t) => {
            let r = Node::Text(t.clone());
            proof {
                assert(node_m(r) == apply_style_node(node_m(*n), o, c0));
                assert(strs_m(fails@) =~= strs_m(f0) + style_fails_node(node_m(*n), o, c0));
            }
            r
        },
        Node::Comment(t) => {
            let r = Node::Comment(t.clone());
            proof {
                assert(node_m(r) == apply_style_node(node_m(*n), o, c0));
                assert(strs_m(fails@) =~= strs_m(f0) + style_fails_node(node_m(*n), o, c0));
            }
            r
        },
        Node::Doctype(d) => {
            let r = Node::Doctype(
                Doctype {
                    name: d.name.clone(),
                    public_id: d.public_id.clone(),
                    system_id: d.system_id.clone(),
                },
            );
            proof {
                assert(node_m(r) == apply_style_node(node_m(*n), o, c0));
                assert(strs_m(fails@) =~= strs_m(f0) + style_fails_node(node_m(*n), o, c0));
            }
            r
        },
    }
}

/// The stylesheet pass over the nodes from index `i` on.
fn apply_style_children_x(
    nodes: &Vec<Node>,
    i: usize,
    outs: &Vec<Result<String, String>>,
    cur: &mut usize,
    fails: &mut Vec<String>,
) -> (r: Vec<Node>)
    requires
        i <= nodes@.len(),
        *old(cur) + style_refs_nodes(nodes_m(nodes@).skip(i as int)).len() <= outs@.len(),
    ensures
        nodes_m(r@) == apply_style_nodes(
            nodes_m(nodes@).skip(i as int),
            style_outs_m(outs@),
            *old(cur) as int,
        ),
        *final(cur) == *old(cur) + style_refs_nodes(nodes_m(nodes@).skip(i as int)).len(),
        strs_m(final(fails)@) == strs_m(old(fails)@) + style_fails_nodes(
            nodes_m(nodes@).skip(i as int),
            style_outs_m(outs@),
            *old(cur) as int,
        ),
    decreases nodes@, nodes@.len() - i, 1int,
{
    broadcast use lemma_nodes_m;

    let ghost s = nodes_m(nodes@);
    let ghost o = style_outs_m(outs@);
    let ghost c0 = *cur as int;
    let ghost f0 = fails@;
    if i < nodes.len() {
        proof {
            assert(s.skip(i as int)[0] == node_m(nodes@[i as int]));
            assert(s.skip(i as int).subrange(1, s.skip(i as int).len() as int) =~= s.skip(
                i + 1,
            ));
            assert(style_refs_nodes(s.skip(i as int)) == style_refs_node(
                node_m(nodes@[i as int]),
            ) + style_refs_nodes(s.skip(i + 1)));
        }
        let h = apply_style_node_x(&nodes[i], outs, cur, fails);
        let ghost gh = h;
        let mut rest = apply_style_children_x(nodes, i + 1, outs, cur, fails);
        let ghost grest = rest@;
        let mut out: Vec<Node> = Vec::new();
        out.push(h);
        out.append(&mut rest);
        proof {
            assert(out@ == seq![gh] + grest);
            lemma_nodes_m_cons(gh, grest);
            assert(nodes_m(out@) =~= apply_style_nodes(s.skip(i as int), o, c0));
            assert(strs_m(fails@) =~= strs_m(f0) + style_fails_nodes(s.skip(i as int), o, c0));
        }
        out
    } else {
        proof {
            assert(s.skip(i as int) =~= Seq::<NodeM>::empty());
        }
        let out: Vec<Node> = Vec::new();
        proof {
            assert(nodes_m(out@) =~= apply_style_nodes(s.skip(i as int), o, c0));
            assert(strs_m(fails@) =~= strs_m(f0) + style_fails_nodes(s.skip(i as int), o, c0));
        }
        out
    }
}

/// The whole operation on the document model: the image pass, then the
/// stylesheet pass over its result.
pub open spec fn inline_m(
    d: Seq<NodeM>,
    io: Seq<Result<Seq<u8>, Seq<char>>>,
    so: Seq<Result<Seq<char>, Seq<char>>>,
) -> Seq<NodeM> {
    apply_style_nodes(apply_img_nodes(d, io, 0), so, 0)
}

/// The failure log of the whole operation: the image pass's entries,
/// then the stylesheet pass's, each in document order.
pub open spec fn inline_fails_m(
    d: Seq<NodeM>,
    io: Seq<Result<Seq<u8>, Seq<char>>>,
    so: Seq<Result<Seq<char>, Seq<char>>>,
) -> Seq<Seq<char>> {
    img_fails_nodes(d, io, 0) + style_fails_nodes(apply_img_nodes(d, io, 0), so, 0)
}

proof fn lemma_style_refs_nodes_cons(x: NodeM, t: Seq<NodeM>)
    ensures
        style_refs_nodes(seq![x] + t) == style_refs_node(x) + style_refs_nodes(t),
{
    assert((seq![x] + t)[0] == x);
    assert((seq![x] + t).subrange(1, (seq![x] + t).len() as int) =~= t);
}

/// The image pass never changes which stylesheet references a tree
/// holds: it rewrites only `img` attributes and keeps every tag and
/// every child list in place.
pub proof fn lemma_img_pass_keeps_style_refs(n: NodeM, o: Seq<Result<Seq<u8>, Seq<char>>>, c: int)
    ensures
        style_refs_node(apply_img_node(n, o, c)) == style_refs_node(n),
    decreases n, 0int,
{
    match n {
        NodeM::Element(e) => {
            assert("img"@ != "link"@) by {
                reveal_strlit("img");
                reveal_strlit("link");
                assert("img"@.len() == 3);
                assert("link"@.len() == 4);
            }
            if e.name == "link"@ {
                assert(inline_img_attrs(e, o, c) == e.attrs);
                match style_href(e) {
                    Some(_) => {},
                    None => {
                        lemma_img_pass_keeps_style_refs_nodes(e.children, o, c);
                    },
                }
            } else {
                lemma_img_pass_keeps_style_refs_nodes(
                    e.children,
                    o,
                    c + if img_needs_load(e) {
                        1int
                    } else {
                        0int
                    },
                );
            }
        },
        _ => {},
    }
}

pub proof fn lemma_img_pass_keeps_style_refs_nodes(
    s: Seq<NodeM>,
    o: Seq<Result<Seq<u8>, Seq<char>>>,
    c: int,
)
    ensures
        style_refs_nodes(apply_img_nodes(s, o, c)) == style_refs_nodes(s),
    decreases s, 1int,
{
    if s.len() > 0 {
        let rest = s.subrange(1, s.len() as int);
        lemma_img_pass_keeps_style_refs(s[0], o, c);
        lemma_img_pass_keeps_style_refs_nodes(rest, o, c + img_refs_node(s[0]).len());
        lemma_style_refs_nodes_cons(apply_img_node(s[0], o, c), apply_img_nodes(
            rest,
            o,
            c + img_refs_node(s[0]).len(),
        ));
    }
}

// -------------------------------------------------------------- whole document
/// Inline a document's external resources, given the outcome of every
/// load: one outcome per image reference, then one per stylesheet
/// reference, each list in the document order that `image_requests`
/// and `style_requests` return. Produces the rewritten document and
/// the failure log; determinism and the shape of both are pinned by
/// `inline_m` and `inline_fails_m`.
pub fn html_inline(
    doc: Document,
    img_outcomes: Vec<Result<Vec<u8>, String>>,
    style_outcomes: Vec<Result<String, String>>,
) -> (r: (Document, Vec<String>))
    requires
        img_outcomes@.len() == img_refs_nodes(doc@).len(),
        style_outcomes@.len() == style_refs_nodes(doc@).len(),
    ensures
        r.0@ == inline_m(doc@, img_outs_m(img_outcomes@), style_outs_m(style_outcomes@)),
        strs_m(r.1@) == inline_fails_m(
            doc@,
            img_outs_m(img_outcomes@),
            style_outs_m(style_outcomes@),
        ),
{
    let ghost d = doc@;
    let ghost io = img_outs_m(img_outcomes@);
    let ghost so = style_outs_m(style_outcomes@);
    let mut fails: Vec<String> = Vec::new();
    let ghost f0 = fails@;
    let mut cur: usize = 0;
    proof {
        assert(nodes_m(doc.nodes@).skip(0) =~= nodes_m(doc.nodes@));
        assert(io.len() == img_outcomes@.len());
    }
    let new_nodes = apply_img_children_x(&doc.nodes, 0, &img_outcomes, &mut cur, &mut fails);
    proof {
        assert(nodes_m(new_nodes@) == apply_img_nodes(d, io, 0));
        lemma_img_pass_keeps_style_refs_nodes(d, io, 0);
        assert(nodes_m(new_nodes@).skip(0) =~= nodes_m(new_nodes@));
        assert(so.len() == style_outcomes@.len());
    }
    let mut cur2: usize = 0;
    let final_nodes = apply_style_children_x(&new_nodes, 0, &style_outcomes, &mut cur2, &mut fails);
    let out_doc = Document { nodes: final_nodes };
    proof {
        assert(out_doc@ == inline_m(d, io, so));
        assert(strs_m(f0) =~= Seq::<Seq<char>>::empty());
        assert(strs_m(fails@) =~= inline_fails_m(d, io, so));
    }
    (out_doc, fails)
}

} // verus!
