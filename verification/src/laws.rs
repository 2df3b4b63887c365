//! What holds of the inlining passes, stated and proved once for all
//! documents: how each eligible element ends up, and that the failure
//! log pairs the requests with their outcomes, in document order.
use vstd::prelude::*;
use crate::classify::RefClass;
use crate::classify::spec_classify;
use crate::dom::AttrM;
use crate::dom::ElemM;
use crate::dom::NodeM;
use crate::dom::attr_value;
use crate::dom::has_attr;
use crate::dom::lemma_attr_value_from_set;
use crate::dom::lemma_remove_attr_absent;
use crate::dom::lemma_remove_attr_absent_noop;
use crate::dom::lemma_remove_attr_keeps_other;
use crate::dom::remove_attr;
use crate::dom::set_attr;
use crate::editor::apply_img_node;
use crate::editor::apply_img_nodes;
use crate::editor::apply_style_node;
use crate::editor::img_fails_node;
use crate::editor::img_fails_nodes;
use crate::editor::img_needs_load;
use crate::editor::img_refs_node;
use crate::editor::img_refs_nodes;
use crate::editor::img_src;
use crate::editor::inline_fails_m;
use crate::editor::inline_img_attrs;
use crate::editor::lemma_img_pass_keeps_style_refs_nodes;
use crate::editor::style_elem_m;
use crate::editor::style_fails_node;
use crate::editor::style_fails_nodes;
use crate::editor::style_href;
use crate::editor::style_refs_node;
use crate::editor::style_refs_nodes;
use crate::encode::encode_m;
use crate::encode::lemma_encode_already_inlined;
use crate::text::image_fail_msg;
use crate::text::style_fail_msg;
use crate::text::trim_m;

verus! {

/// An image whose `src` already holds inline data is left
/// byte-identical by the image pass — it carries no `srcset` to strip
/// — and it asks for no load and logs nothing of its own.
pub proof fn lemma_already_inlined_image_unchanged(
    e: ElemM,
    r: Seq<char>,
    o: Seq<Result<Seq<u8>, Seq<char>>>,
    c: int,
)
    requires
        e.name == "img"@,
        attr_value(e.attrs, "src"@) == Some(r),
        spec_classify(r) == RefClass::AlreadyInlined,
        !has_attr(e.attrs, "srcset"@),
    ensures
        apply_img_node(NodeM::Element(e), o, c) == NodeM::Element(
            ElemM { name: e.name, attrs: e.attrs, children: apply_img_nodes(e.children, o, c) },
        ),
        img_refs_node(NodeM::Element(e)) == img_refs_nodes(e.children),
        img_fails_node(NodeM::Element(e), o, c) == img_fails_nodes(e.children, o, c),
{
    lemma_remove_attr_absent_noop(e.attrs, "srcset"@);
    assert(inline_img_attrs(e, o, c) == e.attrs);
    assert(img_refs_node(NodeM::Element(e)) =~= img_refs_nodes(e.children));
    assert(img_fails_node(NodeM::Element(e), o, c) =~= img_fails_nodes(e.children, o, c));
}

/// An image whose load succeeded carries exactly the encoder's data
/// URI as its `src` — which starts with `data:image/` — its `srcset`
/// is gone, and nothing is logged for it.
pub proof fn lemma_loaded_image_inlined(
    e: ElemM,
    r: Seq<char>,
    bytes: Seq<u8>,
    o: Seq<Result<Seq<u8>, Seq<char>>>,
    c: int,
)
    requires
        e.name == "img"@,
        attr_value(e.attrs, "src"@) == Some(r),
        spec_classify(r) != RefClass::AlreadyInlined,
        0 <= c < o.len(),
        o[c] == Ok::<Seq<u8>, Seq<char>>(bytes),
    ensures
        attr_value(inline_img_attrs(e, o, c), "src"@) == Some(encode_m(bytes)),
        "data:image/"@.is_prefix_of(encode_m(bytes)),
        spec_classify(encode_m(bytes)) == RefClass::AlreadyInlined,
        !has_attr(inline_img_attrs(e, o, c), "srcset"@),
        img_fails_node(NodeM::Element(e), o, c) == img_fails_nodes(e.children, o, c + 1),
{
    assert(img_needs_load(e));
    let sa = set_attr(e.attrs, "src"@, encode_m(bytes));
    assert(inline_img_attrs(e, o, c) == remove_attr(sa, "srcset"@));
    assert("src"@ != "srcset"@) by {
        reveal_strlit("src");
        reveal_strlit("srcset");
        assert("src"@.len() == 3);
        assert("srcset"@.len() == 6);
    }
    lemma_attr_value_from_set(e.attrs, "src"@, encode_m(bytes), "src"@, 0);
    lemma_remove_attr_keeps_other(sa, "srcset"@, "src"@, 0);
    lemma_remove_attr_absent(sa, "srcset"@);
    lemma_encode_already_inlined(bytes);
    assert(img_fails_node(NodeM::Element(e), o, c) =~= img_fails_nodes(e.children, o, c + 1));
}

/// An image whose load failed keeps its `src` as it was, loses its
/// `srcset` all the same, and contributes exactly one entry, naming
/// the reference and the cause, before whatever its children log.
pub proof fn lemma_failed_image_kept(
    e: ElemM,
    r: Seq<char>,
    cause: Seq<char>,
    o: Seq<Result<Seq<u8>, Seq<char>>>,
    c: int,
)
    requires
        e.name == "img"@,
        attr_value(e.attrs, "src"@) == Some(r),
        spec_classify(r) != RefClass::AlreadyInlined,
        0 <= c < o.len(),
        o[c] == Err::<Seq<u8>, Seq<char>>(cause),
    ensures
        attr_value(inline_img_attrs(e, o, c), "src"@) == Some(r),
        !has_attr(inline_img_attrs(e, o, c), "srcset"@),
        img_fails_node(NodeM::Element(e), o, c) == seq![image_fail_msg(r, cause)]
            + img_fails_nodes(e.children, o, c + 1),
{
    assert(img_needs_load(e));
    assert(inline_img_attrs(e, o, c) == remove_attr(e.attrs, "srcset"@));
    assert("src"@ != "srcset"@) by {
        reveal_strlit("src");
        reveal_strlit("srcset");
        assert("src"@.len() == 3);
        assert("srcset"@.len() == 6);
    }
    lemma_remove_attr_keeps_other(e.attrs, "srcset"@, "src"@, 0);
    lemma_remove_attr_absent(e.attrs, "srcset"@);
}

/// A stylesheet link whose load succeeded is replaced, in its place,
/// by a `style` element with no attributes and a single text child:
/// the loaded text trimmed of leading and trailing white space.
/// Nothing is logged for it.
pub proof fn lemma_loaded_stylesheet_replaced(
    e: ElemM,
    text: Seq<char>,
    o: Seq<Result<Seq<char>, Seq<char>>>,
    c: int,
)
    requires
        style_href(e) is Some,
        0 <= c < o.len(),
        o[c] == Ok::<Seq<char>, Seq<char>>(text),
    ensures
        apply_style_node(NodeM::Element(e), o, c) == style_elem_m(text),
        style_elem_m(text) == NodeM::Element(
            ElemM {
                name: "style"@,
                attrs: Seq::<AttrM>::empty(),
                children: seq![NodeM::Text(trim_m(text))],
            },
        ),
        style_fails_node(NodeM::Element(e), o, c) == Seq::<Seq<char>>::empty(),
{
}

/// A stylesheet link whose load failed stays exactly as it was and
/// contributes exactly one entry, naming the reference and the cause.
pub proof fn lemma_failed_stylesheet_kept(
    e: ElemM,
    r: Seq<char>,
    cause: Seq<char>,
    o: Seq<Result<Seq<char>, Seq<char>>>,
    c: int,
)
    requires
        style_href(e) == Some(r),
        0 <= c < o.len(),
        o[c] == Err::<Seq<char>, Seq<char>>(cause),
    ensures
        apply_style_node(NodeM::Element(e), o, c) == NodeM::Element(e),
        style_fails_node(NodeM::Element(e), o, c) == seq![style_fail_msg(r, cause)],
{
}

/// No image element that carries a `src` carries a `srcset`, anywhere
/// in this subtree.
pub open spec fn no_img_keeps_srcset(n: NodeM) -> bool
    decreases n, 0int,
{
    match n {
        NodeM::Element(e) => (img_src(e) is Some ==> !has_attr(e.attrs, "srcset"@))
            && no_img_keeps_srcset_nodes(e.children),
        _ => true,
    }
}

pub open spec fn no_img_keeps_srcset_nodes(s: Seq<NodeM>) -> bool
    decreases s, 1int,
{
    s.len() == 0 || (no_img_keeps_srcset(s[0]) && no_img_keeps_srcset_nodes(
        s.subrange(1, s.len() as int),
    ))
}

/// After the image pass, no processed image keeps a `srcset`: every
/// `img` element with a `src` in the output tree has lost it, whatever
/// its load's outcome was.
pub proof fn lemma_image_pass_strips_srcset(n: NodeM, o: Seq<Result<Seq<u8>, Seq<char>>>, c: int)
    ensures
        no_img_keeps_srcset(apply_img_node(n, o, c)),
    decreases n, 0int,
{
    match n {
        NodeM::Element(e) => {
            let na = inline_img_attrs(e, o, c);
            let ne = match apply_img_node(n, o, c) {
                NodeM::Element(ne) => ne,
                _ => arbitrary(),
            };
            if img_src(ne) is Some {
                assert(ne.name == "img"@);
                if img_needs_load(e) {
                    if 0 <= c < o.len() && o[c] is Ok {
                        let bytes = match o[c] {
                            Ok(b) => b,
                            Err(_) => arbitrary(),
                        };
                        lemma_remove_attr_absent(
                            set_attr(e.attrs, "src"@, encode_m(bytes)),
                            "srcset"@,
                        );
                    } else {
                        lemma_remove_attr_absent(e.attrs, "srcset"@);
                    }
                } else if img_src(e) is Some {
                    lemma_remove_attr_absent(e.attrs, "srcset"@);
                } else {
                    // An img without a src keeps its attributes, and the
                    // rewritten element then has none either.
                    assert(attr_value(na, "src"@) is None);
                }
            }
            lemma_image_pass_strips_srcset_nodes(
                e.children,
                o,
                c + if img_needs_load(e) {
                    1int
                } else {
                    0int
                },
            );
        },
        _ => {},
    }
}

pub proof fn lemma_image_pass_strips_srcset_nodes(
    s: Seq<NodeM>,
    o: Seq<Result<Seq<u8>, Seq<char>>>,
    c: int,
)
    ensures
        no_img_keeps_srcset_nodes(apply_img_nodes(s, o, c)),
    decreases s, 1int,
{
    if s.len() > 0 {
        let rest = s.subrange(1, s.len() as int);
        lemma_image_pass_strips_srcset(s[0], o, c);
        lemma_image_pass_strips_srcset_nodes(rest, o, c + img_refs_node(s[0]).len());
        let t = apply_img_nodes(s, o, c);
        assert(t[0] == apply_img_node(s[0], o, c));
        assert(t.subrange(1, t.len() as int) =~= apply_img_nodes(
            rest,
            o,
            c + img_refs_node(s[0]).len(),
        ));
    }
}

/// Neither pass drops or duplicates a node: each one maps every node
/// list, at every level, to a list of the same length, node for node.
pub proof fn lemma_no_node_dropped(
    s: Seq<NodeM>,
    io: Seq<Result<Seq<u8>, Seq<char>>>,
    so: Seq<Result<Seq<char>, Seq<char>>>,
    c: int,
)
    ensures
        apply_img_nodes(s, io, c).len() == s.len(),
        crate::editor::apply_style_nodes(s, so, c).len() == s.len(),
    decreases s,
{
    if s.len() > 0 {
        lemma_no_node_dropped(s.subrange(1, s.len() as int), io, so, c + img_refs_node(s[0]).len());
        lemma_no_node_dropped(
            s.subrange(1, s.len() as int),
            io,
            so,
            c + style_refs_node(s[0]).len(),
        );
    }
}

/// Inlining is deterministic: the rewritten document and the failure
/// log are functions of the document and the load outcomes alone —
/// `html_inline`'s contract pins both to `inline_m` and
/// `inline_fails_m` — so two runs over the same input with the same
/// outcomes produce the same result.
pub proof fn lemma_inlining_deterministic(
    d1: Seq<NodeM>,
    d2: Seq<NodeM>,
    io1: Seq<Result<Seq<u8>, Seq<char>>>,
    io2: Seq<Result<Seq<u8>, Seq<char>>>,
    so1: Seq<Result<Seq<char>, Seq<char>>>,
    so2: Seq<Result<Seq<char>, Seq<char>>>,
)
    requires
        d1 == d2,
        io1 == io2,
        so1 == so2,
    ensures
        crate::editor::inline_m(d1, io1, so1) == crate::editor::inline_m(d2, io2, so2),
        inline_fails_m(d1, io1, so1) == inline_fails_m(d2, io2, so2),
{
}

// ----------------------------------------------------- the failure log's shape
/// The entries the failure log owes a list of image requests: one per
/// failed outcome, in request order, pairing the i-th reference with
/// the i-th outcome.
pub open spec fn img_expected_fails(
    refs: Seq<Seq<char>>,
    o: Seq<Result<Seq<u8>, Seq<char>>>,
    c: int,
) -> Seq<Seq<char>>
    decreases refs.len(),
{
    if refs.len() == 0 {
        Seq::empty()
    } else {
        (if 0 <= c < o.len() {
            match o[c] {
                Ok(_) => Seq::empty(),
                Err(cause) => seq![image_fail_msg(refs[0], cause)],
            }
        } else {
            Seq::empty()
        }) + img_expected_fails(refs.subrange(1, refs.len() as int), o, c + 1)
    }
}

/// The same for stylesheet requests.
pub open spec fn style_expected_fails(
    refs: Seq<Seq<char>>,
    o: Seq<Result<Seq<char>, Seq<char>>>,
    c: int,
) -> Seq<Seq<char>>
    decreases refs.len(),
{
    if refs.len() == 0 {
        Seq::empty()
    } else {
        (if 0 <= c < o.len() {
            match o[c] {
                Ok(_) => Seq::empty(),
                Err(cause) => seq![style_fail_msg(refs[0], cause)],
            }
        } else {
            Seq::empty()
        }) + style_expected_fails(refs.subrange(1, refs.len() as int), o, c + 1)
    }
}

proof fn lemma_img_expected_fails_add(
    r1: Seq<Seq<char>>,
    r2: Seq<Seq<char>>,
    o: Seq<Result<Seq<u8>, Seq<char>>>,
    c: int,
)
    ensures
        img_expected_fails(r1 + r2, o, c) == img_expected_fails(r1, o, c) + img_expected_fails(
            r2,
            o,
            c + r1.len(),
        ),
    decreases r1.len(),
{
    if r1.len() == 0 {
        assert(r1 + r2 =~= r2);
        assert(img_expected_fails(r1, o, c) =~= Seq::<Seq<char>>::empty());
        assert(img_expected_fails(r1, o, c) + img_expected_fails(r2, o, c + r1.len())
            =~= img_expected_fails(r2, o, c));
    } else {
        let t1 = r1.subrange(1, r1.len() as int);
        lemma_img_expected_fails_add(t1, r2, o, c + 1);
        assert((r1 + r2)[0] == r1[0]);
        assert((r1 + r2).subrange(1, (r1 + r2).len() as int) =~= t1 + r2);
        assert(img_expected_fails(r1 + r2, o, c) =~= img_expected_fails(r1, o, c)
            + img_expected_fails(r2, o, c + r1.len()));
    }
}

proof fn lemma_style_expected_fails_add(
    r1: Seq<Seq<char>>,
    r2: Seq<Seq<char>>,
    o: Seq<Result<Seq<char>, Seq<char>>>,
    c: int,
)
    ensures
        style_expected_fails(r1 + r2, o, c) == style_expected_fails(r1, o, c)
            + style_expected_fails(r2, o, c + r1.len()),
    decreases r1.len(),
{
    if r1.len() == 0 {
        assert(r1 + r2 =~= r2);
        assert(style_expected_fails(r1, o, c) =~= Seq::<Seq<char>>::empty());
        assert(style_expected_fails(r1, o, c) + style_expected_fails(r2, o, c + r1.len())
            =~= style_expected_fails(r2, o, c));
    } else {
        let t1 = r1.subrange(1, r1.len() as int);
        lemma_style_expected_fails_add(t1, r2, o, c + 1);
        assert((r1 + r2)[0] == r1[0]);
        assert((r1 + r2).subrange(1, (r1 + r2).len() as int) =~= t1 + r2);
        assert(style_expected_fails(r1 + r2, o, c) =~= style_expected_fails(r1, o, c)
            + style_expected_fails(r2, o, c + r1.len()));
    }
}

/// The image pass logs exactly what its requests and outcomes demand.
pub proof fn lemma_img_failure_log_node(n: NodeM, o: Seq<Result<Seq<u8>, Seq<char>>>, c: int)
    ensures
        img_fails_node(n, o, c) == img_expected_fails(img_refs_node(n), o, c),
    decreases n, 0int,
{
    match n {
        NodeM::Element(e) => {
            let k: int = if img_needs_load(e) {
                1int
            } else {
                0int
            };
            lemma_img_failure_log_nodes(e.children, o, c + k);
            if img_needs_load(e) {
                let r = match img_src(e) {
                    Some(r) => r,
                    None => Seq::empty(),
                };
                let head = seq![r];
                lemma_img_expected_fails_add(head, img_refs_nodes(e.children), o, c);
                assert(head.subrange(1, head.len() as int) =~= Seq::<Seq<char>>::empty());
                assert(img_expected_fails(Seq::empty(), o, c + 1) =~= Seq::<Seq<char>>::empty());
                assert(img_fails_node(n, o, c) =~= img_expected_fails(img_refs_node(n), o, c));
            } else {
                assert(img_refs_node(n) =~= img_refs_nodes(e.children));
                assert(img_fails_node(n, o, c) =~= img_expected_fails(img_refs_node(n), o, c));
            }
        },
        _ => {
            assert(img_fails_node(n, o, c) =~= img_expected_fails(img_refs_node(n), o, c));
        },
    }
}

pub proof fn lemma_img_failure_log_nodes(s: Seq<NodeM>, o: Seq<Result<Seq<u8>, Seq<char>>>, c: int)
    ensures
        img_fails_nodes(s, o, c) == img_expected_fails(img_refs_nodes(s), o, c),
    decreases s, 1int,
{
    if s.len() > 0 {
        let rest = s.subrange(1, s.len() as int);
        lemma_img_failure_log_node(s[0], o, c);
        lemma_img_failure_log_nodes(rest, o, c + img_refs_node(s[0]).len());
        lemma_img_expected_fails_add(img_refs_node(s[0]), img_refs_nodes(rest), o, c);
    } else {
        assert(img_fails_nodes(s, o, c) =~= img_expected_fails(img_refs_nodes(s), o, c));
    }
}

/// The stylesheet pass logs exactly what its requests and outcomes
/// demand.
pub proof fn lemma_style_failure_log_node(n: NodeM, o: Seq<Result<Seq<char>, Seq<char>>>, c: int)
    ensures
        style_fails_node(n, o, c) == style_expected_fails(style_refs_node(n), o, c),
    decreases n, 0int,
{
    match n {
        NodeM::Element(e) => {
            match style_href(e) {
                Some(r) => {
                    let head = seq![r];
                    assert(head.subrange(1, head.len() as int) =~= Seq::<Seq<char>>::empty());
                    assert(style_expected_fails(Seq::empty(), o, c + 1) =~= Seq::<
                        Seq<char>,
                    >::empty());
                    assert(style_fails_node(n, o, c) =~= style_expected_fails(
                        style_refs_node(n),
                        o,
                        c,
                    ));
                },
                None => {
                    lemma_style_failure_log_nodes(e.children, o, c);
                },
            }
        },
        _ => {
            assert(style_fails_node(n, o, c) =~= style_expected_fails(style_refs_node(n), o, c));
        },
    }
}

pub proof fn lemma_style_failure_log_nodes(
    s: Seq<NodeM>,
    o: Seq<Result<Seq<char>, Seq<char>>>,
    c: int,
)
    ensures
        style_fails_nodes(s, o, c) == style_expected_fails(style_refs_nodes(s), o, c),
    decreases s, 1int,
{
    if s.len() > 0 {
        let rest = s.subrange(1, s.len() as int);
        lemma_style_failure_log_node(s[0], o, c);
        lemma_style_failure_log_nodes(rest, o, c + style_refs_node(s[0]).len());
        lemma_style_expected_fails_add(style_refs_node(s[0]), style_refs_nodes(rest), o, c);
    } else {
        assert(style_fails_nodes(s, o, c) =~= style_expected_fails(style_refs_nodes(s), o, c));
    }
}

/// The whole failure log pairs the requests with their outcomes: one
/// entry per failed load and none per successful one, images first,
/// each part in document order, the stylesheet requests unchanged by
/// the image pass. A document with one failing and one succeeding
/// load thus logs exactly the failing one's entry.
pub proof fn lemma_failure_log_pairs_requests(
    d: Seq<NodeM>,
    io: Seq<Result<Seq<u8>, Seq<char>>>,
    so: Seq<Result<Seq<char>, Seq<char>>>,
)
    ensures
        inline_fails_m(d, io, so) == img_expected_fails(img_refs_nodes(d), io, 0)
            + style_expected_fails(style_refs_nodes(d), so, 0),
{
    lemma_img_failure_log_nodes(d, io, 0);
    lemma_img_pass_keeps_style_refs_nodes(d, io, 0);
    lemma_style_failure_log_nodes(apply_img_nodes(d, io, 0), so, 0);
}

} // verus!
