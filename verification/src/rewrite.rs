//! The tree rewriter: applies a completed original-text to translated-text
//! mapping back onto the tree, replacing whole text nodes and whole
//! attribute values, and leaving unmatched text untouched.  The pass never
//! changes tree shape.

use vstd::prelude::*;
use crate::dom::{child_seq, Attr, DocTree, Node, NodeKind};
use crate::extract::{is_skip_tag, spec_extract};
use crate::strutil::{spec_trim, str_eq_str, trim_str};

verus! {

/// The translation for `key` among the aligned fragment and translation
/// lists: the last pair whose original is `key` and whose translation is
/// not empty, as a map built front to back with empty translations skipped
/// would hold it.
pub open spec fn lookup_from(
    origs: Seq<Seq<char>>,
    trans: Seq<Seq<char>>,
    key: Seq<char>,
    k: int,
) -> Option<Seq<char>>
    decreases (if k >= 0 { k } else { 0 }),
{
    if k <= 0 {
        None
    } else if origs[k - 1] == key && trans[k - 1].len() > 0 {
        Some(trans[k - 1])
    } else {
        lookup_from(origs, trans, key, k - 1)
    }
}

/// The number of aligned pairs of the two lists.
pub open spec fn pair_count(origs: Seq<Seq<char>>, trans: Seq<Seq<char>>) -> int {
    if origs.len() <= trans.len() {
        origs.len() as int
    } else {
        trans.len() as int
    }
}

/// The translation mapping over all aligned pairs.
pub open spec fn lookup_translation(
    origs: Seq<Seq<char>>,
    trans: Seq<Seq<char>>,
    key: Seq<char>,
) -> Option<Seq<char>> {
    lookup_from(origs, trans, key, pair_count(origs, trans))
}

/// A rewritten leaf string: the translation of its trimmed form when the
/// mapping has one, the string itself otherwise.
pub open spec fn rewrite_leaf(
    v: Seq<char>,
    origs: Seq<Seq<char>>,
    trans: Seq<Seq<char>>,
) -> Seq<char> {
    match lookup_translation(origs, trans, spec_trim(v)) {
        Some(t) => t,
        None => v,
    }
}

/// Whether an attribute name is translated.
pub open spec fn is_translatable_attr(name: Seq<char>) -> bool {
    name == "title"@ || name == "alt"@ || name == "placeholder"@
}

/// Whether a node is itself a `script`, `style` or `noscript` element.
pub open spec fn is_excluded_element(node: Node) -> bool {
    match node.kind {
        NodeKind::Element { tag, .. } => is_skip_tag(tag@),
        _ => false,
    }
}

/// The starting exclusion flags: each node marked iff it is itself an
/// excluded element.
pub open spec fn init_excluded(nodes: Seq<Node>) -> Seq<bool> {
    Seq::new(nodes.len(), |k: int| is_excluded_element(nodes[k]))
}

/// Marks every in-range index of `cs` as excluded.
pub open spec fn mark_children(flags: Seq<bool>, cs: Seq<int>) -> Seq<bool>
    decreases cs.len(),
{
    if cs.len() == 0 {
        flags
    } else {
        let f1 = if 0 <= cs[0] < flags.len() {
            flags.update(cs[0], true)
        } else {
            flags
        };
        mark_children(f1, cs.drop_first())
    }
}

/// The exclusion flags after the first `i` nodes passed their own flag on
/// to their children.  Child edges point forward, so when node `i - 1` is
/// reached its flag is already final.
pub open spec fn mark_upto(nodes: Seq<Node>, i: int) -> Seq<bool>
    decreases (if i >= 0 { i } else { 0 }),
{
    if i <= 0 {
        init_excluded(nodes)
    } else {
        let prev = mark_upto(nodes, i - 1);
        if 0 <= i - 1 < nodes.len() && prev[i - 1] {
            mark_children(prev, child_seq(nodes[i - 1]))
        } else {
            prev
        }
    }
}

/// Whether each node lies inside a `script`, `style` or `noscript`
/// subtree, the subtree's root element included.
pub open spec fn excluded_flags(nodes: Seq<Node>) -> Seq<bool> {
    mark_upto(nodes, nodes.len() as int)
}

/// How one attribute of a node is rewritten: values of translatable
/// attributes outside excluded subtrees go through the mapping, all other
/// attributes are kept exactly.
pub open spec fn attr_rewritten(
    excluded: bool,
    olda: Attr,
    newa: Attr,
    origs: Seq<Seq<char>>,
    trans: Seq<Seq<char>>,
) -> bool {
    &&& newa.name@ == olda.name@
    &&& newa.value@ == if !excluded && is_translatable_attr(olda.name@) {
        rewrite_leaf(olda.value@, origs, trans)
    } else {
        olda.value@
    }
}

/// How one node is rewritten, given whether it lies inside an excluded
/// subtree: text content and — outside excluded subtrees — translatable
/// attribute values are replaced through the mapping; tag names, attribute
/// names, child edges and everything else are kept exactly.
pub open spec fn node_rewritten(
    old: Node,
    new: Node,
    origs: Seq<Seq<char>>,
    trans: Seq<Seq<char>>,
    excluded: bool,
) -> bool {
    &&& new.children@ == old.children@
    &&& match old.kind {
        NodeKind::Text { content } => match new.kind {
            NodeKind::Text { content: nc } => nc@ == rewrite_leaf(content@, origs, trans),
            _ => false,
        },
        NodeKind::Element { tag, attrs } => match new.kind {
            NodeKind::Element { tag: nt, attrs: na } => {
                &&& nt@ == tag@
                &&& na@.len() == attrs@.len()
                &&& forall|k: int|
                    0 <= k < attrs@.len() ==> attr_rewritten(
                        excluded,
                        attrs@[k],
                        #[trigger] na@[k],
                        origs,
                        trans,
                    )
            },
            _ => false,
        },
        _ => node_kind_views_equal(old.kind, new.kind),
    }
}

/// Whether two node kinds carry the same variant with the same texts.
pub open spec fn node_kind_views_equal(a: NodeKind, b: NodeKind) -> bool {
    match a {
        NodeKind::Document => b is Document,
        NodeKind::Doctype { name, public_id, system_id } => match b {
            NodeKind::Doctype { name: nb, public_id: pb, system_id: sb } => name@ == nb@
                && public_id@ == pb@ && system_id@ == sb@,
            _ => false,
        },
        NodeKind::Text { content } => match b {
            NodeKind::Text { content: cb } => content@ == cb@,
            _ => false,
        },
        NodeKind::Comment { content } => match b {
            NodeKind::Comment { content: cb } => content@ == cb@,
            _ => false,
        },
        NodeKind::ProcessingInstruction { target, content } => match b {
            NodeKind::ProcessingInstruction { target: tb, content: cb } => target@ == tb@
                && content@ == cb@,
            _ => false,
        },
        NodeKind::Element { tag, attrs } => match b {
            NodeKind::Element { tag: tb, attrs: ab } => {
                &&& tag@ == tb@
                &&& attrs@.len() == ab@.len()
                &&& forall|j: int|
                    0 <= j < attrs@.len() ==> attr_views_equal(attrs@[j], #[trigger] ab@[j])
            },
            _ => false,
        },
    }
}

/// Finds the translation for `key`, scanning the aligned pairs from the
/// back so that a later duplicate wins, as in a map built front to back.
fn lookup_exec(origs: &Vec<String>, trans: &Vec<String>, key: &str) -> (r: Option<String>)
    ensures
        match r {
            Some(t) => lookup_translation(origs.deep_view(), trans.deep_view(), key@) == Some(t@),
            None => lookup_translation(origs.deep_view(), trans.deep_view(), key@) is None,
        },
{
    let n: usize = if origs.len() <= trans.len() {
        origs.len()
    } else {
        trans.len()
    };
    let mut k: usize = n;
    while k > 0
        invariant
            0 <= k <= n,
            n == pair_count(origs.deep_view(), trans.deep_view()),
            n <= origs@.len(),
            n <= trans@.len(),
            lookup_translation(origs.deep_view(), trans.deep_view(), key@) == lookup_from(
                origs.deep_view(),
                trans.deep_view(),
                key@,
                k as int,
            ),
        decreases k,
    {
        if str_eq_str(origs[k - 1].as_str(), key) && !trans[k - 1].as_str().is_empty() {
            proof {
                assert(trans.deep_view()[k - 1].len() > 0) by {
                    assert(trans@[k - 1]@.len() == trans@[k - 1]@.len());
                }
            }
            return Some(trans[k - 1].clone());
        }
        k = k - 1;
    }
    None
}

/// Rewrites one leaf string through the mapping.
fn rewrite_leaf_exec(v: &String, origs: &Vec<String>, trans: &Vec<String>) -> (r: String)
    ensures
        r@ == rewrite_leaf(v@, origs.deep_view(), trans.deep_view()),
{
    let t = trim_str(v.as_str());
    match lookup_exec(origs, trans, t) {
        Some(tr) => tr,
        None => v.clone(),
    }
}

/// Mark-children keeps the flag vector's length.
proof fn lemma_mark_children_len(flags: Seq<bool>, cs: Seq<int>)
    ensures
        mark_children(flags, cs).len() == flags.len(),
    decreases cs.len(),
{
    if cs.len() > 0 {
        let f1 = if 0 <= cs[0] < flags.len() {
            flags.update(cs[0], true)
        } else {
            flags
        };
        lemma_mark_children_len(f1, cs.drop_first());
    }
}

proof fn lemma_mark_children_push(flags: Seq<bool>, cs: Seq<int>, c: int)
    ensures
        mark_children(flags, cs.push(c)) == {
            let m = mark_children(flags, cs);
            if 0 <= c < m.len() {
                m.update(c, true)
            } else {
                m
            }
        },
    decreases cs.len(),
{
    lemma_mark_children_len(flags, cs);
    if cs.len() == 0 {
        assert(cs.push(c)[0] == c);
        assert(cs.push(c).drop_first() =~= Seq::<int>::empty());
        let f1 = if 0 <= c < flags.len() {
            flags.update(c, true)
        } else {
            flags
        };
        assert(mark_children(flags, cs.push(c)) == mark_children(f1, Seq::<int>::empty()));
        assert(mark_children(f1, Seq::<int>::empty()) == f1);
        assert(mark_children(flags, cs) == flags);
    } else {
        assert(cs.push(c)[0] == cs[0]);
        assert(cs.push(c).drop_first() =~= cs.drop_first().push(c));
        let f1 = if 0 <= cs[0] < flags.len() {
            flags.update(cs[0], true)
        } else {
            flags
        };
        assert(mark_children(flags, cs.push(c)) == mark_children(f1, cs.drop_first().push(c)));
        lemma_mark_children_push(f1, cs.drop_first(), c);
        assert(mark_children(flags, cs) == mark_children(f1, cs.drop_first()));
    }
}

/// Exclusion flags keep the arena's length.
proof fn lemma_mark_upto_len(nodes: Seq<Node>, i: int)
    ensures
        mark_upto(nodes, i).len() == nodes.len(),
    decreases (if i >= 0 { i } else { 0 }),
{
    if i > 0 {
        lemma_mark_upto_len(nodes, i - 1);
        let prev = mark_upto(nodes, i - 1);
        if 0 <= i - 1 < nodes.len() && prev[i - 1] {
            lemma_mark_children_len(prev, child_seq(nodes[i - 1]));
        }
    }
}

/// Computes, for every node, whether it lies inside an excluded subtree:
/// a forward pass, since a node's flag is final before any of its children
/// are reached.
fn compute_excluded_flags(tree: &DocTree) -> (r: Vec<bool>)
    ensures
        r@ == excluded_flags(tree.nodes@),
{
    let ghost nodes = tree.nodes@;
    let n: usize = tree.nodes.len();
    let mut flags: Vec<bool> = Vec::new();
    let mut i: usize = 0;
    while i < n
        invariant
            0 <= i <= n,
            n == nodes.len(),
            nodes == tree.nodes@,
            flags@.len() == i,
            forall|k: int| 0 <= k < i ==> flags@[k] == is_excluded_element(nodes[k]),
        decreases n - i,
    {
        let excluded = match &tree.nodes[i].kind {
            NodeKind::Element { tag, .. } => {
                str_eq_str(tag.as_str(), "script") || str_eq_str(tag.as_str(), "style")
                    || str_eq_str(tag.as_str(), "noscript")
            },
            _ => false,
        };
        flags.push(excluded);
        i = i + 1;
    }
    proof {
        assert(flags@ =~= init_excluded(nodes));
        assert(flags@ == mark_upto(nodes, 0));
    }
    let mut i: usize = 0;
    while i < n
        invariant
            0 <= i <= n,
            n == nodes.len(),
            nodes == tree.nodes@,
            flags@ == mark_upto(nodes, i as int),
            flags@.len() == n,
        decreases n - i,
    {
        proof {
            lemma_mark_upto_len(nodes, i as int);
        }
        if flags[i] {
            let ghost before = flags@;
            let ghost cs = child_seq(nodes[i as int]);
            let m: usize = tree.nodes[i].children.len();
            let mut j: usize = 0;
            proof {
                assert(cs.take(0) =~= Seq::<int>::empty());
                assert(mark_children(before, cs.take(0)) == before);
            }
            while j < m
                invariant
                    0 <= j <= m,
                    i < n,
                    n == nodes.len(),
                    nodes == tree.nodes@,
                    m == nodes[i as int].children@.len(),
                    cs == child_seq(nodes[i as int]),
                    cs.len() == m,
                    flags@ == mark_children(before, cs.take(j as int)),
                    flags@.len() == n,
                decreases m - j,
            {
                let c = tree.nodes[i].children[j];
                let ghost mid = flags@;
                if c < n {
                    flags[c] = true;
                    proof {
                        assert(flags@ =~= mid.update(c as int, true));
                    }
                }
                proof {
                    assert(cs[j as int] == c as int);
                    assert(cs.take(j + 1) =~= cs.take(j as int).push(cs[j as int]));
                    lemma_mark_children_push(before, cs.take(j as int), cs[j as int]);
                }
                j = j + 1;
            }
            proof {
                assert(cs.take(m as int) =~= cs);
                assert(flags@ == mark_children(mark_upto(nodes, i as int), cs));
                assert(flags@ == mark_upto(nodes, i + 1));
            }
        } else {
            proof {
                assert(flags@ == mark_upto(nodes, i + 1));
            }
        }
        i = i + 1;
    }
    flags
}

/// Applies a completed translation mapping onto the tree: for every text
/// node, its trimmed content is looked up and the whole content replaced
/// when a translation exists; the same for `title`, `alt` and `placeholder`
/// attribute values outside `script`, `style` and `noscript` subtrees.
/// Unmatched text is left unchanged, and tree shape is preserved exactly.
pub fn apply_translations_to_dom(
    tree: DocTree,
    original_texts: &Vec<String>,
    translations: &Vec<String>,
) -> (r: DocTree)
    ensures
        r.nodes@.len() == tree.nodes@.len(),
        forall|k: int|
            0 <= k < tree.nodes@.len() ==> node_rewritten(
                tree.nodes@[k],
                #[trigger] r.nodes@[k],
                original_texts.deep_view(),
                translations.deep_view(),
                excluded_flags(tree.nodes@)[k],
            ),
        tree.wf() ==> r.wf(),
{
    let ghost origs = original_texts.deep_view();
    let ghost trans = translations.deep_view();
    let flags = compute_excluded_flags(&tree);
    proof {
        lemma_mark_upto_len(tree.nodes@, tree.nodes@.len() as int);
    }
    let n: usize = tree.nodes.len();
    let mut new_nodes: Vec<Node> = Vec::new();
    let mut i: usize = 0;
    while i < n
        invariant
            0 <= i <= n,
            n == tree.nodes@.len(),
            new_nodes@.len() == i,
            origs == original_texts.deep_view(),
            trans == translations.deep_view(),
            flags@ == excluded_flags(tree.nodes@),
            flags@.len() == n,
            forall|k: int|
                0 <= k < i ==> node_rewritten(
                    tree.nodes@[k],
                    #[trigger] new_nodes@[k],
                    origs,
                    trans,
                    excluded_flags(tree.nodes@)[k],
                ),
        decreases n - i,
    {
        let excluded = flags[i];
        let node = &tree.nodes[i];
        let new_kind: NodeKind = match &node.kind {
            NodeKind::Document => NodeKind::Document,
            NodeKind::Doctype { name, public_id, system_id } => NodeKind::Doctype {
                name: name.clone(),
                public_id: public_id.clone(),
                system_id: system_id.clone(),
            },
            NodeKind::Comment { content } => NodeKind::Comment { content: content.clone() },
            NodeKind::ProcessingInstruction { target, content } => {
                NodeKind::ProcessingInstruction {
                    target: target.clone(),
                    content: content.clone(),
                }
            },
            NodeKind::Text { content } => NodeKind::Text {
                content: rewrite_leaf_exec(content, original_texts, translations),
            },
            NodeKind::Element { tag, attrs } => {
                let m: usize = attrs.len();
                let mut new_attrs: Vec<Attr> = Vec::new();
                let mut j: usize = 0;
                while j < m
                    invariant
                        0 <= j <= m,
                        m == attrs@.len(),
                        new_attrs@.len() == j,
                        origs == original_texts.deep_view(),
                        trans == translations.deep_view(),
                        forall|k: int|
                            0 <= k < j ==> attr_rewritten(
                                excluded,
                                attrs@[k],
                                #[trigger] new_attrs@[k],
                                origs,
                                trans,
                            ),
                    decreases m - j,
                {
                    let a = &attrs[j];
                    let name = a.name.as_str();
                    let translate = !excluded && (str_eq_str(name, "title") || str_eq_str(
                        name,
                        "alt",
                    ) || str_eq_str(name, "placeholder"));
                    let new_value: String = if translate {
                        rewrite_leaf_exec(&a.value, original_texts, translations)
                    } else {
                        a.value.clone()
                    };
                    new_attrs.push(Attr { name: a.name.clone(), value: new_value });
                    j = j + 1;
                }
                NodeKind::Element { tag: tag.clone(), attrs: new_attrs }
            },
        };
        new_nodes.push(Node { kind: new_kind, children: node.children.clone() });
        proof {
            assert(new_nodes@[i as int].children@ =~= tree.nodes@[i as int].children@);
        }
        i = i + 1;
    }
    let r = DocTree { nodes: new_nodes };
    proof {
        if tree.wf() {
            assert forall|a: int, b: int|
                0 <= a < r.nodes.len() && 0 <= b < r.nodes[a].children.len() implies a
                < #[trigger] r.nodes[a].children[b] < r.nodes.len() by {
                assert(node_rewritten(
                    tree.nodes@[a],
                    r.nodes@[a],
                    origs,
                    trans,
                    excluded_flags(tree.nodes@)[a],
                ));
                assert(r.nodes@[a].children@ == tree.nodes@[a].children@);
            }
        }
    }
    r
}

/// Whether two attributes carry the same name and value.
pub open spec fn attr_views_equal(a: Attr, b: Attr) -> bool {
    a.name@ == b.name@ && a.value@ == b.value@
}

/// Whether two nodes carry the same kind, text, attributes and children.
pub open spec fn node_views_equal(a: Node, b: Node) -> bool {
    &&& a.children@ == b.children@
    &&& node_kind_views_equal(a.kind, b.kind)
}

/// Marking children never clears a flag.
proof fn lemma_mark_children_monotone(flags: Seq<bool>, cs: Seq<int>, j: int)
    requires
        0 <= j < flags.len(),
        flags[j],
    ensures
        mark_children(flags, cs).len() == flags.len(),
        mark_children(flags, cs)[j],
    decreases cs.len(),
{
    if cs.len() > 0 {
        let f1 = if 0 <= cs[0] < flags.len() {
            flags.update(cs[0], true)
        } else {
            flags
        };
        lemma_mark_children_monotone(f1, cs.drop_first(), j);
    }
}

/// A node that is itself an excluded element keeps its flag through the
/// whole marking pass.
proof fn lemma_excluded_flags_cover_init(nodes: Seq<Node>, i: int, j: int)
    requires
        0 <= j < nodes.len(),
        is_excluded_element(nodes[j]),
    ensures
        mark_upto(nodes, i).len() == nodes.len(),
        mark_upto(nodes, i)[j],
    decreases (if i >= 0 { i } else { 0 }),
{
    lemma_mark_upto_len(nodes, i);
    if i <= 0 {
    } else {
        lemma_excluded_flags_cover_init(nodes, i - 1, j);
        let prev = mark_upto(nodes, i - 1);
        if 0 <= i - 1 < nodes.len() && prev[i - 1] {
            lemma_mark_children_monotone(prev, child_seq(nodes[i - 1]), j);
        }
    }
}

proof fn lemma_lookup_from_empty(
    origs: Seq<Seq<char>>,
    trans: Seq<Seq<char>>,
    key: Seq<char>,
    k: int,
)
    requires
        origs.len() == 0,
        k <= 0,
    ensures
        lookup_from(origs, trans, key, k) is None,
{
}

/// With no fragments extracted, the rewriter changes nothing: a document
/// with no translatable text comes out of the pipeline unchanged.
pub proof fn lemma_untranslatable_document_unchanged(
    tree: DocTree,
    r: DocTree,
    trans: Seq<Seq<char>>,
)
    requires
        spec_extract(tree).len() == 0,
        r.nodes@.len() == tree.nodes@.len(),
        forall|k: int|
            0 <= k < tree.nodes@.len() ==> node_rewritten(
                tree.nodes@[k],
                #[trigger] r.nodes@[k],
                spec_extract(tree),
                trans,
                excluded_flags(tree.nodes@)[k],
            ),
    ensures
        forall|k: int|
            0 <= k < tree.nodes@.len() ==> node_views_equal(tree.nodes@[k], #[trigger] r.nodes@[k]),
{
    let origs = spec_extract(tree);
    assert forall|k: int| 0 <= k < tree.nodes@.len() implies node_views_equal(
        tree.nodes@[k],
        #[trigger] r.nodes@[k],
    ) by {
        assert(node_rewritten(
            tree.nodes@[k],
            r.nodes@[k],
            origs,
            trans,
            excluded_flags(tree.nodes@)[k],
        ));
        assert(pair_count(origs, trans) <= 0);
        assert(forall|key: Seq<char>| lookup_translation(origs, trans, key) is None);
    }
}

proof fn lemma_lookup_identity_from(origs: Seq<Seq<char>>, key: Seq<char>, k: int)
    ensures
        match lookup_from(origs, origs, key, k) {
            Some(t) => t == key,
            None => true,
        },
    decreases (if k >= 0 { k } else { 0 }),
{
    if k > 0 && !(origs[k - 1] == key && origs[k - 1].len() > 0) {
        lemma_lookup_identity_from(origs, key, k - 1);
    }
}

/// Whether a node's translatable leaves are already trimmed: its text
/// content, or its `title`, `alt` and `placeholder` attribute values —
/// `script`, `style` and `noscript` elements themselves are exempt, and an
/// element inside such a subtree is never rewritten either way.
pub open spec fn leaves_trimmed(node: Node) -> bool {
    match node.kind {
        NodeKind::Text { content } => content@ == spec_trim(content@),
        NodeKind::Element { tag, attrs } => is_skip_tag(tag@) || forall|j: int|
            0 <= j < attrs@.len() && is_translatable_attr((#[trigger] attrs@[j]).name@)
                ==> attrs@[j].value@ == spec_trim(attrs@[j].value@),
        _ => true,
    }
}

/// Round-trip idempotence: when every fragment maps to itself, rewriting
/// leaves the tree textually and structurally identical, provided the
/// tree's translatable leaves carry no surrounding whitespace — a leaf
/// with surrounding whitespace is replaced by its trimmed form instead.
pub proof fn lemma_identity_translation_unchanged(
    tree: DocTree,
    r: DocTree,
    origs: Seq<Seq<char>>,
)
    requires
        r.nodes@.len() == tree.nodes@.len(),
        forall|k: int|
            0 <= k < tree.nodes@.len() ==> node_rewritten(
                tree.nodes@[k],
                #[trigger] r.nodes@[k],
                origs,
                origs,
                excluded_flags(tree.nodes@)[k],
            ),
        forall|k: int| 0 <= k < tree.nodes@.len() ==> leaves_trimmed(#[trigger] tree.nodes@[k]),
    ensures
        forall|k: int|
            0 <= k < tree.nodes@.len() ==> node_views_equal(tree.nodes@[k], #[trigger] r.nodes@[k]),
{
    assert forall|key: Seq<char>|
        #[trigger] lookup_translation(origs, origs, key) is Some implies lookup_translation(
        origs,
        origs,
        key,
    )->0 == key by {
        lemma_lookup_identity_from(origs, key, pair_count(origs, origs));
    }
    assert forall|k: int| 0 <= k < tree.nodes@.len() implies node_views_equal(
        tree.nodes@[k],
        #[trigger] r.nodes@[k],
    ) by {
        let excluded = excluded_flags(tree.nodes@)[k];
        assert(node_rewritten(tree.nodes@[k], r.nodes@[k], origs, origs, excluded));
        assert(leaves_trimmed(tree.nodes@[k]));
        match tree.nodes@[k].kind {
            NodeKind::Text { content } => {
                assert(rewrite_leaf(content@, origs, origs) == content@);
            },
            NodeKind::Element { tag, attrs } => {
                assert forall|j: int| 0 <= j < attrs@.len() implies attr_views_equal(
                    attrs@[j],
                    #[trigger] node_attrs(r.nodes@[k])[j],
                ) by {
                    assert(attr_rewritten(
                        excluded,
                        attrs@[j],
                        node_attrs(r.nodes@[k])[j],
                        origs,
                        origs,
                    ));
                    if !excluded && is_translatable_attr(attrs@[j].name@) {
                        if is_skip_tag(tag@) {
                            lemma_excluded_flags_cover_init(
                                tree.nodes@,
                                tree.nodes@.len() as int,
                                k,
                            );
                        }
                        assert(!is_skip_tag(tag@));
                        assert(attrs@[j].value@ == spec_trim(attrs@[j].value@));
                    }
                }
            },
            _ => {},
        }
    }
}

/// The attributes of a node, empty for non-elements.
pub open spec fn node_attrs(node: Node) -> Seq<Attr> {
    match node.kind {
        NodeKind::Element { attrs, .. } => attrs@,
        _ => Seq::empty(),
    }
}

/// Whether a node is a text occurrence of fragment `f`: a text node whose
/// trimmed content is `f`.
pub open spec fn is_text_occurrence(node: Node, f: Seq<char>) -> bool {
    match node.kind {
        NodeKind::Text { content } => spec_trim(content@) == f,
        _ => false,
    }
}

/// The text content of a node, empty for non-text nodes.
pub open spec fn text_content(node: Node) -> Seq<char> {
    match node.kind {
        NodeKind::Text { content } => content@,
        _ => Seq::empty(),
    }
}

/// Whether attribute `j` of a node is an attribute occurrence of fragment
/// `f`: a translatable attribute whose trimmed value is `f`.
pub open spec fn is_attr_occurrence(node: Node, j: int, f: Seq<char>) -> bool {
    match node.kind {
        NodeKind::Element { attrs, .. } => {
            &&& 0 <= j < attrs@.len()
            &&& is_translatable_attr(attrs@[j].name@)
            &&& spec_trim(attrs@[j].value@) == f
        },
        _ => false,
    }
}

/// A non-empty translation for a fragment reaches every occurrence: every
/// text node, and every translatable attribute outside the excluded
/// subtrees, whose trimmed text is the fragment carries the translation
/// after the rewrite.
pub proof fn lemma_translation_applied_everywhere(
    tree: DocTree,
    r: DocTree,
    origs: Seq<Seq<char>>,
    trans: Seq<Seq<char>>,
    f: Seq<char>,
    t: Seq<char>,
)
    requires
        lookup_translation(origs, trans, f) == Some(t),
        r.nodes@.len() == tree.nodes@.len(),
        forall|k: int|
            0 <= k < tree.nodes@.len() ==> node_rewritten(
                tree.nodes@[k],
                #[trigger] r.nodes@[k],
                origs,
                trans,
                excluded_flags(tree.nodes@)[k],
            ),
    ensures
        forall|k: int|
            0 <= k < tree.nodes@.len() && is_text_occurrence(tree.nodes@[k], f) ==> text_content(
                #[trigger] r.nodes@[k],
            ) == t,
        forall|k: int, j: int|
            0 <= k < tree.nodes@.len() && !excluded_flags(tree.nodes@)[k]
                && #[trigger] is_attr_occurrence(tree.nodes@[k], j, f) ==> node_attrs(
                r.nodes@[k],
            )[j].value@ == t,
{
    assert forall|k: int|
        0 <= k < tree.nodes@.len() && is_text_occurrence(tree.nodes@[k], f) implies text_content(
        #[trigger] r.nodes@[k],
    ) == t by {
        assert(node_rewritten(
            tree.nodes@[k],
            r.nodes@[k],
            origs,
            trans,
            excluded_flags(tree.nodes@)[k],
        ));
    }
    assert forall|k: int, j: int|
        0 <= k < tree.nodes@.len() && !excluded_flags(tree.nodes@)[k]
            && #[trigger] is_attr_occurrence(tree.nodes@[k], j, f) implies node_attrs(
        r.nodes@[k],
    )[j].value@ == t by {
        assert(node_rewritten(tree.nodes@[k], r.nodes@[k], origs, trans, false));
        match tree.nodes@[k].kind {
            NodeKind::Element { attrs, .. } => {
                assert(attr_rewritten(false, attrs@[j], node_attrs(r.nodes@[k])[j], origs, trans));
            },
            _ => {},
        }
    }
}

} // verus!
