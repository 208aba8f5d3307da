//! The text extractor: walks the document tree breadth first and yields the
//! ordered, deduplicated sequence of translatable text fragments from text
//! nodes, selected attributes, embedded script content and inlined base64
//! sub-documents.
//!
//! Output order is deterministic — tree traversal order, first seen wins —
//! because order determines global index assignment.

use vstd::prelude::*;
use vstd::utf8::{valid_utf8, decode_utf8};
use std::collections::VecDeque;
use base64::Engine;
use crate::dom::{
    child_seq, children_weight, guarded_children, lemma_guarded_all, lemma_guarded_weight,
    lemma_queue_weight_concat, node_weight, queue_weight, Attr, DocTree, Node, NodeKind,
};
use crate::scan::{
    scan_json_keys, scan_phrases, scan_quoted, scan_tag_texts, scan_text_values, scan_ui_values,
    spec_scan_json_keys, spec_scan_phrases, spec_scan_quoted, spec_scan_tag_texts,
    spec_scan_text_values, spec_scan_ui_values,
};
use crate::strutil::{
    all_ws_or_punct, is_all_ws_or_punct, count_words, spec_trim, spec_word_count, trim_str,
    vec_contains_str, spec_contains, contains_substr, str_eq_str,
};
use crate::utils::{spec_base64_payload, extract_base64_from_data_uri, spec_is_translatable,
    is_translatable_text};

verus! {

/// Which acceptance rule a candidate must pass before it joins the
/// fragment list.
#[derive(Clone, Copy)]
pub enum CandidateRule {
    /// Text-node and attribute rule: more than one character, not made of
    /// whitespace and punctuation alone.
    NodeText,
    /// The translatability filter, for script-derived candidates.
    Translatable,
    /// Between-tags rule for decoded sub-documents: more than two
    /// characters, not made of whitespace and punctuation alone.
    TagText,
    /// Capitalized-phrase rule: more than three characters, at most six words.
    Phrase,
}

/// Whether a trimmed candidate passes a rule.
pub open spec fn accept_candidate(rule: CandidateRule, t: Seq<char>) -> bool {
    match rule {
        CandidateRule::NodeText => t.len() > 1 && !all_ws_or_punct(t),
        CandidateRule::Translatable => spec_is_translatable(t),
        CandidateRule::TagText => t.len() > 2 && !all_ws_or_punct(t),
        CandidateRule::Phrase => t.len() > 3 && spec_word_count(t) <= 6,
    }
}

/// Adds one candidate: trim it, test the rule, and keep it unless it is
/// already present.
pub open spec fn add_candidate(acc: Seq<Seq<char>>, c: Seq<char>, rule: CandidateRule) -> Seq<
    Seq<char>,
> {
    let t = spec_trim(c);
    if accept_candidate(rule, t) && !acc.contains(t) {
        acc.push(t)
    } else {
        acc
    }
}

/// Adds a list of candidates in order.
pub open spec fn add_candidates(
    acc: Seq<Seq<char>>,
    cs: Seq<Seq<char>>,
    rule: CandidateRule,
) -> Seq<Seq<char>>
    decreases cs.len(),
{
    if cs.len() == 0 {
        acc
    } else {
        add_candidates(add_candidate(acc, cs[0], rule), cs.drop_first(), rule)
    }
}

proof fn lemma_add_candidates_push(acc: Seq<Seq<char>>, cs: Seq<Seq<char>>, c: Seq<char>, rule: CandidateRule)
    ensures
        add_candidates(acc, cs.push(c), rule) == add_candidate(
            add_candidates(acc, cs, rule),
            c,
            rule,
        ),
    decreases cs.len(),
{
    if cs.len() == 0 {
        assert(cs.push(c)[0] == c);
        assert(cs.push(c).drop_first() =~= Seq::<Seq<char>>::empty());
        assert(add_candidates(acc, cs.push(c), rule) == add_candidates(
            add_candidate(acc, c, rule),
            Seq::<Seq<char>>::empty(),
            rule,
        ));
        assert(add_candidates(add_candidate(acc, c, rule), Seq::<Seq<char>>::empty(), rule)
            == add_candidate(acc, c, rule));
        assert(add_candidates(acc, cs, rule) == acc);
    } else {
        assert(cs.push(c)[0] == cs[0]);
        assert(cs.push(c).drop_first() =~= cs.drop_first().push(c));
        assert(add_candidates(acc, cs.push(c), rule) == add_candidates(
            add_candidate(acc, cs[0], rule),
            cs.drop_first().push(c),
            rule,
        ));
        lemma_add_candidates_push(add_candidate(acc, cs[0], rule), cs.drop_first(), c, rule);
        assert(add_candidates(acc, cs, rule) == add_candidates(
            add_candidate(acc, cs[0], rule),
            cs.drop_first(),
            rule,
        ));
    }
}

/// Decides `accept_candidate` on a trimmed candidate.
fn accept_exec(rule: CandidateRule, t: &str) -> (r: bool)
    ensures
        r == accept_candidate(rule, t@),
{
    match rule {
        CandidateRule::NodeText => t.unicode_len() > 1 && !is_all_ws_or_punct(t),
        CandidateRule::Translatable => is_translatable_text(t),
        CandidateRule::TagText => t.unicode_len() > 2 && !is_all_ws_or_punct(t),
        CandidateRule::Phrase => t.unicode_len() > 3 && count_words(t) <= 6,
    }
}

/// Adds one candidate to the fragment list.
fn add_candidate_exec(texts: &mut Vec<String>, cand: &str, rule: CandidateRule)
    ensures
        final(texts).deep_view() == add_candidate(old(texts).deep_view(), cand@, rule),
{
    let t = trim_str(cand);
    if accept_exec(rule, t) && !vec_contains_str(texts, t) {
        let ghost pre = texts.deep_view();
        texts.push(String::from_str(t));
        proof {
            assert(texts.deep_view() =~= pre.push(spec_trim(cand@)));
        }
    }
}

/// Adds a list of candidates to the fragment list, in order.
fn add_candidates_exec(texts: &mut Vec<String>, cands: &Vec<String>, rule: CandidateRule)
    ensures
        final(texts).deep_view() == add_candidates(old(texts).deep_view(), cands.deep_view(), rule),
{
    let ghost orig = texts.deep_view();
    let n: usize = cands.len();
    let mut k: usize = 0;
    proof {
        assert(cands.deep_view().take(0) =~= Seq::<Seq<char>>::empty());
    }
    while k < n
        invariant
            0 <= k <= n,
            n == cands@.len(),
            cands.deep_view().len() == n,
            texts.deep_view() == add_candidates(orig, cands.deep_view().take(k as int), rule),
        decreases n - k,
    {
        add_candidate_exec(texts, cands[k].as_str(), rule);
        proof {
            assert(cands.deep_view().take(k + 1) =~= cands.deep_view().take(k as int).push(
                cands.deep_view()[k as int],
            ));
            lemma_add_candidates_push(
                orig,
                cands.deep_view().take(k as int),
                cands.deep_view()[k as int],
                rule,
            );
        }
        k = k + 1;
    }
    proof {
        assert(cands.deep_view().take(n as int) =~= cands.deep_view());
    }
}

/// What base64 decoding yields for a payload; the result depends on the
/// payload characters alone.
pub uninterp spec fn base64_decoded(s: Seq<char>) -> Option<Seq<u8>>;

/// Relies on the `base64` crate's `general_purpose::STANDARD` engine:
/// decoding is a pure function of the input string, `Ok` exactly when the
/// input is well-formed standard base64.
#[verifier::external_body]
fn decode_base64(s: &str) -> (r: Option<Vec<u8>>)
    ensures
        match r {
            Some(v) => base64_decoded(s@) == Some(v@),
            None => base64_decoded(s@) is None,
        },
{
    match base64::engine::general_purpose::STANDARD.decode(s) {
        Ok(v) => Some(v),
        Err(_) => None,
    }
}

/// Relies on `String::from_utf8` of std: it returns the UTF-8 decoding of
/// the bytes exactly when they are valid UTF-8.
#[verifier::external_body]
fn decode_utf8_bytes(b: Vec<u8>) -> (r: Option<String>)
    ensures
        match r {
            Some(s) => valid_utf8(b@) && s@ == decode_utf8(b@),
            None => !valid_utf8(b@),
        },
{
    match String::from_utf8(b) {
        Ok(s) => Some(s),
        Err(_) => None,
    }
}

/// The fragments contributed by a decoded base64 sub-document: the
/// between-tags pass, then the capitalized-phrase pass.
pub open spec fn add_decoded_doc(acc: Seq<Seq<char>>, html: Seq<char>) -> Seq<Seq<char>> {
    add_candidates(
        add_candidates(acc, spec_scan_tag_texts(html), CandidateRule::TagText),
        spec_scan_phrases(html),
        CandidateRule::Phrase,
    )
}

/// The fragments contributed by one attribute of an element: a
/// translatable-attribute candidate, and for an `iframe` source holding an
/// inline base64 HTML document, the decoded document's candidates.
pub open spec fn visit_attr(
    tag: Seq<char>,
    name: Seq<char>,
    value: Seq<char>,
    acc: Seq<Seq<char>>,
) -> Seq<Seq<char>> {
    let acc1 = if name == "title"@ || name == "alt"@ || name == "placeholder"@ {
        add_candidate(acc, value, CandidateRule::NodeText)
    } else {
        acc
    };
    if tag == "iframe"@ && name == "src"@ && spec_contains(value, "data:text/html;"@) {
        match spec_base64_payload(value) {
            Some(payload) => match base64_decoded(payload) {
                Some(bytes) => if valid_utf8(bytes) {
                    add_decoded_doc(acc1, decode_utf8(bytes))
                } else {
                    acc1
                },
                None => acc1,
            },
            None => acc1,
        }
    } else {
        acc1
    }
}

/// The fragments contributed by an element's attributes, in order.
pub open spec fn visit_attrs(tag: Seq<char>, attrs: Seq<Attr>, acc: Seq<Seq<char>>) -> Seq<
    Seq<char>,
>
    decreases attrs.len(),
{
    if attrs.len() == 0 {
        acc
    } else {
        visit_attrs(tag, attrs.drop_first(), visit_attr(tag, attrs[0].name@, attrs[0].value@, acc))
    }
}

proof fn lemma_visit_attrs_push(tag: Seq<char>, attrs: Seq<Attr>, a: Attr, acc: Seq<Seq<char>>)
    ensures
        visit_attrs(tag, attrs.push(a), acc) == visit_attr(
            tag,
            a.name@,
            a.value@,
            visit_attrs(tag, attrs, acc),
        ),
    decreases attrs.len(),
{
    if attrs.len() == 0 {
        assert(attrs.push(a)[0] == a);
        assert(attrs.push(a).drop_first() =~= Seq::<Attr>::empty());
        assert(visit_attrs(tag, attrs.push(a), acc) == visit_attrs(
            tag,
            Seq::<Attr>::empty(),
            visit_attr(tag, a.name@, a.value@, acc),
        ));
        assert(visit_attrs(tag, Seq::<Attr>::empty(), visit_attr(tag, a.name@, a.value@, acc))
            == visit_attr(tag, a.name@, a.value@, acc));
        assert(visit_attrs(tag, attrs, acc) == acc);
    } else {
        assert(attrs.push(a)[0] == attrs[0]);
        assert(attrs.push(a).drop_first() =~= attrs.drop_first().push(a));
        let acc1 = visit_attr(tag, attrs[0].name@, attrs[0].value@, acc);
        assert(visit_attrs(tag, attrs.push(a), acc) == visit_attrs(
            tag,
            attrs.drop_first().push(a),
            acc1,
        ));
        lemma_visit_attrs_push(tag, attrs.drop_first(), a, acc1);
        assert(visit_attrs(tag, attrs, acc) == visit_attrs(tag, attrs.drop_first(), acc1));
    }
}

/// The fragments contributed by one script body: string literals, `"text"`
/// values, JSON key names, and values under user-interface keys, each
/// passed through the translatability filter.
pub open spec fn add_script_code(acc: Seq<Seq<char>>, code: Seq<char>) -> Seq<Seq<char>> {
    add_candidates(
        add_candidates(
            add_candidates(
                add_candidates(acc, spec_scan_quoted(code), CandidateRule::Translatable),
                spec_scan_text_values(code),
                CandidateRule::Translatable,
            ),
            spec_scan_json_keys(code),
            CandidateRule::Translatable,
        ),
        spec_scan_ui_values(code),
        CandidateRule::Translatable,
    )
}

/// The fragments contributed by a script element's text children, in order.
pub open spec fn visit_script_children(nodes: Seq<Node>, cs: Seq<int>, acc: Seq<Seq<char>>) -> Seq<
    Seq<char>,
>
    decreases cs.len(),
{
    if cs.len() == 0 {
        acc
    } else {
        let acc1 = if 0 <= cs[0] < nodes.len() {
            match nodes[cs[0]].kind {
                NodeKind::Text { content } => add_script_code(acc, content@),
                _ => acc,
            }
        } else {
            acc
        };
        visit_script_children(nodes, cs.drop_first(), acc1)
    }
}

proof fn lemma_visit_script_children_push(
    nodes: Seq<Node>,
    cs: Seq<int>,
    c: int,
    acc: Seq<Seq<char>>,
)
    ensures
        visit_script_children(nodes, cs.push(c), acc) == {
            let prev = visit_script_children(nodes, cs, acc);
            if 0 <= c < nodes.len() {
                match nodes[c].kind {
                    NodeKind::Text { content } => add_script_code(prev, content@),
                    _ => prev,
                }
            } else {
                prev
            }
        },
    decreases cs.len(),
{
    let step = |acc0: Seq<Seq<char>>, idx: int|
        {
            if 0 <= idx < nodes.len() {
                match nodes[idx].kind {
                    NodeKind::Text { content } => add_script_code(acc0, content@),
                    _ => acc0,
                }
            } else {
                acc0
            }
        };
    if cs.len() == 0 {
        assert(cs.push(c)[0] == c);
        assert(cs.push(c).drop_first() =~= Seq::<int>::empty());
        assert(visit_script_children(nodes, cs.push(c), acc) == visit_script_children(
            nodes,
            Seq::<int>::empty(),
            step(acc, c),
        ));
        assert(visit_script_children(nodes, Seq::<int>::empty(), step(acc, c)) == step(acc, c));
        assert(visit_script_children(nodes, cs, acc) == acc);
    } else {
        assert(cs.push(c)[0] == cs[0]);
        assert(cs.push(c).drop_first() =~= cs.drop_first().push(c));
        let acc1 = step(acc, cs[0]);
        assert(visit_script_children(nodes, cs.push(c), acc) == visit_script_children(
            nodes,
            cs.drop_first().push(c),
            acc1,
        ));
        lemma_visit_script_children_push(nodes, cs.drop_first(), c, acc1);
        assert(visit_script_children(nodes, cs, acc) == visit_script_children(
            nodes,
            cs.drop_first(),
            acc1,
        ));
    }
}

/// Whether a tag's subtree is excluded from the generic text and attribute
/// walk.
pub open spec fn is_skip_tag(tag: Seq<char>) -> bool {
    tag == "script"@ || tag == "style"@ || tag == "noscript"@
}

/// The fragments contributed by one node of the tree.
pub open spec fn visit_node(nodes: Seq<Node>, i: int, acc: Seq<Seq<char>>) -> Seq<Seq<char>>
    recommends
        0 <= i < nodes.len(),
{
    match nodes[i].kind {
        NodeKind::Text { content } => add_candidate(acc, content@, CandidateRule::NodeText),
        NodeKind::Element { tag, attrs } => {
            let acc1 = if is_skip_tag(tag@) {
                acc
            } else {
                visit_attrs(tag@, attrs@, acc)
            };
            if tag@ == "script"@ {
                visit_script_children(nodes, child_seq(nodes[i]), acc1)
            } else {
                acc1
            }
        },
        _ => acc,
    }
}

/// The children a traversal descends into: none for excluded subtrees.
pub open spec fn descend_children(node: Node) -> Seq<int> {
    match node.kind {
        NodeKind::Element { tag, .. } => if is_skip_tag(tag@) {
            Seq::empty()
        } else {
            child_seq(node)
        },
        _ => child_seq(node),
    }
}

/// Breadth-first extraction over an explicit queue of node indices.
pub open spec fn extract_from_queue(nodes: Seq<Node>, q: Seq<int>, acc: Seq<Seq<char>>) -> Seq<
    Seq<char>,
>
    decreases queue_weight(nodes, q)
    via extract_from_queue_decreases
{
    if q.len() == 0 {
        acc
    } else {
        let i = q[0];
        if 0 <= i < nodes.len() {
            extract_from_queue(
                nodes,
                q.drop_first() + guarded_children(nodes, descend_children(nodes[i]), i),
                visit_node(nodes, i, acc),
            )
        } else {
            extract_from_queue(nodes, q.drop_first(), acc)
        }
    }
}

#[via_fn]
proof fn extract_from_queue_decreases(nodes: Seq<Node>, q: Seq<int>, acc: Seq<Seq<char>>) {
    if q.len() > 0 {
        let i = q[0];
        assert(q =~= seq![i] + q.drop_first());
        lemma_queue_weight_concat(nodes, seq![i], q.drop_first());
        assert(queue_weight(nodes, seq![i]) == node_weight(nodes, i)) by {
            assert(seq![i].drop_first() =~= Seq::<int>::empty());
        }
        if 0 <= i < nodes.len() {
            let g = guarded_children(nodes, descend_children(nodes[i]), i);
            lemma_queue_weight_concat(nodes, q.drop_first(), g);
            lemma_guarded_weight(nodes, descend_children(nodes[i]), i);
            lemma_children_weight_le(nodes, nodes[i], i);
        }
    }
}

/// The weight of the children a traversal descends into is bounded by the
/// weight of all the node's children.
proof fn lemma_children_weight_le(nodes: Seq<Node>, node: Node, floor: int)
    requires
        floor < nodes.len(),
    ensures
        children_weight(nodes, descend_children(node), floor) <= children_weight(
            nodes,
            child_seq(node),
            floor,
        ),
{
    match node.kind {
        NodeKind::Element { tag, .. } => {
            if is_skip_tag(tag@) {
                assert(children_weight(nodes, Seq::<int>::empty(), floor) == 0);
            }
        },
        _ => {},
    }
}

/// The full extraction result for a tree: breadth first from the root.
pub open spec fn spec_extract(tree: DocTree) -> Seq<Seq<char>> {
    if tree.nodes@.len() == 0 {
        Seq::empty()
    } else {
        extract_from_queue(tree.nodes@, seq![0], Seq::empty())
    }
}

/// A queue of arena indices as mathematical integers.
pub open spec fn usize_seq(q: Seq<usize>) -> Seq<int> {
    q.map_values(|c: usize| c as int)
}

/// Extracts the ordered, deduplicated translatable fragments of a document
/// tree.  The result is a pure function of the tree, so extraction is
/// deterministic: running it twice on the same tree yields the same list.
pub fn extract_translatable_texts(tree: &DocTree) -> (r: Vec<String>)
    requires
        tree.wf(),
    ensures
        r.deep_view() == spec_extract(*tree),
{
    let mut texts: Vec<String> = Vec::new();
    if tree.nodes.len() == 0 {
        proof {
            assert(texts.deep_view() =~= spec_extract(*tree));
        }
        return texts;
    }
    let mut queue: VecDeque<usize> = VecDeque::new();
    queue.push_back(0);
    proof {
        assert(usize_seq(queue@) =~= seq![0int]);
        assert(texts.deep_view() =~= Seq::<Seq<char>>::empty());
    }
    loop
        invariant
            tree.wf(),
            tree.nodes@.len() > 0,
            forall|k: int| 0 <= k < queue@.len() ==> queue@[k] < tree.nodes@.len(),
            spec_extract(*tree) == extract_from_queue(
                tree.nodes@,
                usize_seq(queue@),
                texts.deep_view(),
            ),
        decreases queue_weight(tree.nodes@, usize_seq(queue@)),
    {
        let ghost old_q = queue@;
        let ghost old_texts = texts.deep_view();
        let popped = queue.pop_front();
        let i = match popped {
            Some(i) => i,
            None => {
                return texts;
            },
        };
        proof {
            assert(usize_seq(old_q)[0] == i as int);
            assert(usize_seq(queue@) =~= usize_seq(old_q).drop_first());
            assert(usize_seq(old_q) =~= seq![i as int] + usize_seq(queue@));
            lemma_queue_weight_concat(tree.nodes@, seq![i as int], usize_seq(queue@));
            assert(queue_weight(tree.nodes@, seq![i as int]) == node_weight(
                tree.nodes@,
                i as int,
            )) by {
                assert(seq![i as int].drop_first() =~= Seq::<int>::empty());
            }
        }
        visit_node_exec(tree, i, &mut texts);
        let ghost rest = queue@;
        let descend = node_descends(tree, i);
        if descend {
            let n_children: usize = tree.nodes[i].children.len();
            let mut k: usize = 0;
            while k < n_children
                invariant
                    tree.wf(),
                    0 <= k <= n_children,
                    i < tree.nodes@.len(),
                    n_children == tree.nodes@[i as int].children@.len(),
                    queue@ == rest + tree.nodes@[i as int].children@.take(k as int),
                decreases n_children - k,
            {
                let c = tree.nodes[i].children[k];
                queue.push_back(c);
                proof {
                    assert(queue@ =~= rest + tree.nodes@[i as int].children@.take(k + 1));
                }
                k = k + 1;
            }
            proof {
                assert(tree.nodes@[i as int].children@.take(n_children as int) =~= tree.nodes@[
                    i as int
                ].children@);
            }
        }
        proof {
            let nodes = tree.nodes@;
            let ii = i as int;
            let desc = descend_children(nodes[ii]);
            assert forall|j: int| 0 <= j < desc.len() implies ii < #[trigger] desc[j]
                < nodes.len() by {
                assert(desc[j] == child_seq(nodes[ii])[j]);
            }
            lemma_guarded_all(nodes, desc, ii);
            if descend {
                assert(usize_seq(queue@) =~= usize_seq(rest) + desc);
            } else {
                assert(desc =~= Seq::<int>::empty());
                assert(usize_seq(queue@) =~= usize_seq(rest) + desc);
            }
            assert(extract_from_queue(nodes, usize_seq(old_q), old_texts) == extract_from_queue(
                nodes,
                usize_seq(rest) + guarded_children(nodes, desc, ii),
                visit_node(nodes, ii, old_texts),
            ));
            lemma_queue_weight_concat(tree.nodes@, usize_seq(rest), desc);
            lemma_guarded_weight(nodes, desc, ii);
            lemma_children_weight_le(nodes, nodes[ii], ii);
        }
    }
}

/// Whether the traversal descends into this node's children.
fn node_descends(tree: &DocTree, i: usize) -> (r: bool)
    requires
        i < tree.nodes@.len(),
    ensures
        r ==> descend_children(tree.nodes@[i as int]) == child_seq(tree.nodes@[i as int]),
        !r ==> descend_children(tree.nodes@[i as int]) == Seq::<int>::empty(),
{
    match &tree.nodes[i].kind {
        NodeKind::Element { tag, .. } => {
            let skip = str_eq_str(tag.as_str(), "script") || str_eq_str(tag.as_str(), "style")
                || str_eq_str(tag.as_str(), "noscript");
            if skip {
                proof {
                    assert(descend_children(tree.nodes@[i as int]) =~= Seq::<int>::empty());
                }
                false
            } else {
                true
            }
        },
        _ => true,
    }
}

/// Collects the fragments of one node into `texts`.
fn visit_node_exec(tree: &DocTree, i: usize, texts: &mut Vec<String>)
    requires
        tree.wf(),
        i < tree.nodes@.len(),
    ensures
        final(texts).deep_view() == visit_node(tree.nodes@, i as int, old(texts).deep_view()),
{
    match &tree.nodes[i].kind {
        NodeKind::Text { content } => {
            add_candidate_exec(texts, content.as_str(), CandidateRule::NodeText);
        },
        NodeKind::Element { tag, attrs } => {
            let skip = str_eq_str(tag.as_str(), "script") || str_eq_str(tag.as_str(), "style")
                || str_eq_str(tag.as_str(), "noscript");
            if !skip {
                visit_attrs_exec(tag.as_str(), attrs, texts);
            }
            if str_eq_str(tag.as_str(), "script") {
                visit_script_children_exec(tree, i, texts);
            }
        },
        _ => {},
    }
}

/// Collects the fragments of an element's attributes.
fn visit_attrs_exec(tag: &str, attrs: &Vec<Attr>, texts: &mut Vec<String>)
    ensures
        final(texts).deep_view() == visit_attrs(tag@, attrs@, old(texts).deep_view()),
{
    let ghost orig = texts.deep_view();
    let n: usize = attrs.len();
    let mut k: usize = 0;
    proof {
        assert(attrs@.take(0) =~= Seq::<Attr>::empty());
    }
    while k < n
        invariant
            0 <= k <= n,
            n == attrs@.len(),
            texts.deep_view() == visit_attrs(tag@, attrs@.take(k as int), orig),
        decreases n - k,
    {
        visit_attr_exec(tag, &attrs[k], texts);
        proof {
            assert(attrs@.take(k + 1) =~= attrs@.take(k as int).push(attrs@[k as int]));
            lemma_visit_attrs_push(tag@, attrs@.take(k as int), attrs@[k as int], orig);
        }
        k = k + 1;
    }
    proof {
        assert(attrs@.take(n as int) =~= attrs@);
    }
}

/// Collects the fragments of one attribute.
fn visit_attr_exec(tag: &str, attr: &Attr, texts: &mut Vec<String>)
    ensures
        final(texts).deep_view() == visit_attr(
            tag@,
            attr.name@,
            attr.value@,
            old(texts).deep_view(),
        ),
{
    let name = attr.name.as_str();
    if str_eq_str(name, "title") || str_eq_str(name, "alt") || str_eq_str(name, "placeholder") {
        add_candidate_exec(texts, attr.value.as_str(), CandidateRule::NodeText);
    }
    if str_eq_str(tag, "iframe") && str_eq_str(name, "src") && contains_substr(
        attr.value.as_str(),
        "data:text/html;",
    ) {
        match extract_base64_from_data_uri(attr.value.as_str()) {
            Some(payload) => {
                match decode_base64(payload.as_str()) {
                    Some(bytes) => {
                        match decode_utf8_bytes(bytes) {
                            Some(html) => {
                                let tag_texts = scan_tag_texts(html.as_str());
                                add_candidates_exec(texts, &tag_texts, CandidateRule::TagText);
                                let phrases = scan_phrases(html.as_str());
                                add_candidates_exec(texts, &phrases, CandidateRule::Phrase);
                            },
                            None => {},
                        }
                    },
                    None => {},
                }
            },
            None => {},
        }
    }
}

/// Collects the script-heuristic fragments of one script body.
fn add_script_code_exec(texts: &mut Vec<String>, code: &str)
    ensures
        final(texts).deep_view() == add_script_code(old(texts).deep_view(), code@),
{
    let quoted = scan_quoted(code);
    add_candidates_exec(texts, &quoted, CandidateRule::Translatable);
    let text_values = scan_text_values(code);
    add_candidates_exec(texts, &text_values, CandidateRule::Translatable);
    let json_keys = scan_json_keys(code);
    add_candidates_exec(texts, &json_keys, CandidateRule::Translatable);
    let ui_values = scan_ui_values(code);
    add_candidates_exec(texts, &ui_values, CandidateRule::Translatable);
}

/// Collects the fragments of a script element's text children.
fn visit_script_children_exec(tree: &DocTree, i: usize, texts: &mut Vec<String>)
    requires
        tree.wf(),
        i < tree.nodes@.len(),
    ensures
        final(texts).deep_view() == visit_script_children(
            tree.nodes@,
            child_seq(tree.nodes@[i as int]),
            old(texts).deep_view(),
        ),
{
    let ghost orig = texts.deep_view();
    let ghost cs = child_seq(tree.nodes@[i as int]);
    let n: usize = tree.nodes[i].children.len();
    let mut k: usize = 0;
    proof {
        assert(cs.take(0) =~= Seq::<int>::empty());
    }
    while k < n
        invariant
            tree.wf(),
            i < tree.nodes@.len(),
            0 <= k <= n,
            n == tree.nodes@[i as int].children@.len(),
            cs == child_seq(tree.nodes@[i as int]),
            cs.len() == n,
            texts.deep_view() == visit_script_children(tree.nodes@, cs.take(k as int), orig),
        decreases n - k,
    {
        let c = tree.nodes[i].children[k];
        proof {
            assert(cs[k as int] == c as int);
            assert(i < c < tree.nodes@.len());
        }
        match &tree.nodes[c].kind {
            NodeKind::Text { content } => {
                add_script_code_exec(texts, content.as_str());
            },
            _ => {},
        }
        proof {
            assert(cs.take(k + 1) =~= cs.take(k as int).push(cs[k as int]));
            lemma_visit_script_children_push(tree.nodes@, cs.take(k as int), cs[k as int], orig);
        }
        k = k + 1;
    }
    proof {
        assert(cs.take(n as int) =~= cs);
    }
}

/// Whether a fragment list holds no two equal fragments.
pub open spec fn distinct_fragments(s: Seq<Seq<char>>) -> bool {
    forall|i: int, j: int| 0 <= i < j < s.len() ==> #[trigger] s[i] != #[trigger] s[j]
}

proof fn lemma_add_candidate_distinct(acc: Seq<Seq<char>>, c: Seq<char>, rule: CandidateRule)
    requires
        distinct_fragments(acc),
    ensures
        distinct_fragments(add_candidate(acc, c, rule)),
{
    let t = spec_trim(c);
    if accept_candidate(rule, t) && !acc.contains(t) {
        assert forall|i: int, j: int|
            0 <= i < j < acc.push(t).len() implies #[trigger] acc.push(t)[i]
            != #[trigger] acc.push(t)[j] by {
            if j == acc.len() {
                assert(acc[i] == acc.push(t)[i]);
            }
        }
    }
}

proof fn lemma_add_candidates_distinct(
    acc: Seq<Seq<char>>,
    cs: Seq<Seq<char>>,
    rule: CandidateRule,
)
    requires
        distinct_fragments(acc),
    ensures
        distinct_fragments(add_candidates(acc, cs, rule)),
    decreases cs.len(),
{
    if cs.len() > 0 {
        lemma_add_candidate_distinct(acc, cs[0], rule);
        lemma_add_candidates_distinct(add_candidate(acc, cs[0], rule), cs.drop_first(), rule);
    }
}

proof fn lemma_visit_attr_distinct(
    tag: Seq<char>,
    name: Seq<char>,
    value: Seq<char>,
    acc: Seq<Seq<char>>,
)
    requires
        distinct_fragments(acc),
    ensures
        distinct_fragments(visit_attr(tag, name, value, acc)),
{
    let acc1 = if name == "title"@ || name == "alt"@ || name == "placeholder"@ {
        add_candidate(acc, value, CandidateRule::NodeText)
    } else {
        acc
    };
    lemma_add_candidate_distinct(acc, value, CandidateRule::NodeText);
    if tag == "iframe"@ && name == "src"@ && spec_contains(value, "data:text/html;"@) {
        match spec_base64_payload(value) {
            Some(payload) => match base64_decoded(payload) {
                Some(bytes) => if valid_utf8(bytes) {
                    let html = decode_utf8(bytes);
                    lemma_add_candidates_distinct(
                        acc1,
                        spec_scan_tag_texts(html),
                        CandidateRule::TagText,
                    );
                    lemma_add_candidates_distinct(
                        add_candidates(acc1, spec_scan_tag_texts(html), CandidateRule::TagText),
                        spec_scan_phrases(html),
                        CandidateRule::Phrase,
                    );
                },
                None => {},
            },
            None => {},
        }
    }
}

proof fn lemma_visit_attrs_distinct(tag: Seq<char>, attrs: Seq<Attr>, acc: Seq<Seq<char>>)
    requires
        distinct_fragments(acc),
    ensures
        distinct_fragments(visit_attrs(tag, attrs, acc)),
    decreases attrs.len(),
{
    if attrs.len() > 0 {
        lemma_visit_attr_distinct(tag, attrs[0].name@, attrs[0].value@, acc);
        lemma_visit_attrs_distinct(
            tag,
            attrs.drop_first(),
            visit_attr(tag, attrs[0].name@, attrs[0].value@, acc),
        );
    }
}

proof fn lemma_add_script_code_distinct(acc: Seq<Seq<char>>, code: Seq<char>)
    requires
        distinct_fragments(acc),
    ensures
        distinct_fragments(add_script_code(acc, code)),
{
    let a1 = add_candidates(acc, spec_scan_quoted(code), CandidateRule::Translatable);
    let a2 = add_candidates(a1, spec_scan_text_values(code), CandidateRule::Translatable);
    let a3 = add_candidates(a2, spec_scan_json_keys(code), CandidateRule::Translatable);
    lemma_add_candidates_distinct(acc, spec_scan_quoted(code), CandidateRule::Translatable);
    lemma_add_candidates_distinct(a1, spec_scan_text_values(code), CandidateRule::Translatable);
    lemma_add_candidates_distinct(a2, spec_scan_json_keys(code), CandidateRule::Translatable);
    lemma_add_candidates_distinct(a3, spec_scan_ui_values(code), CandidateRule::Translatable);
}

proof fn lemma_visit_script_children_distinct(
    nodes: Seq<Node>,
    cs: Seq<int>,
    acc: Seq<Seq<char>>,
)
    requires
        distinct_fragments(acc),
    ensures
        distinct_fragments(visit_script_children(nodes, cs, acc)),
    decreases cs.len(),
{
    if cs.len() > 0 {
        let acc1 = if 0 <= cs[0] < nodes.len() {
            match nodes[cs[0]].kind {
                NodeKind::Text { content } => add_script_code(acc, content@),
                _ => acc,
            }
        } else {
            acc
        };
        if 0 <= cs[0] < nodes.len() {
            match nodes[cs[0]].kind {
                NodeKind::Text { content } => {
                    lemma_add_script_code_distinct(acc, content@);
                },
                _ => {},
            }
        }
        lemma_visit_script_children_distinct(nodes, cs.drop_first(), acc1);
    }
}

proof fn lemma_visit_node_distinct(nodes: Seq<Node>, i: int, acc: Seq<Seq<char>>)
    requires
        distinct_fragments(acc),
        0 <= i < nodes.len(),
    ensures
        distinct_fragments(visit_node(nodes, i, acc)),
{
    match nodes[i].kind {
        NodeKind::Text { content } => {
            lemma_add_candidate_distinct(acc, content@, CandidateRule::NodeText);
        },
        NodeKind::Element { tag, attrs } => {
            let acc1 = if is_skip_tag(tag@) {
                acc
            } else {
                visit_attrs(tag@, attrs@, acc)
            };
            lemma_visit_attrs_distinct(tag@, attrs@, acc);
            if tag@ == "script"@ {
                lemma_visit_script_children_distinct(nodes, child_seq(nodes[i]), acc1);
            }
        },
        _ => {},
    }
}

proof fn lemma_extract_from_queue_distinct(nodes: Seq<Node>, q: Seq<int>, acc: Seq<Seq<char>>)
    requires
        distinct_fragments(acc),
    ensures
        distinct_fragments(extract_from_queue(nodes, q, acc)),
    decreases queue_weight(nodes, q),
{
    if q.len() > 0 {
        let i = q[0];
        assert(queue_weight(nodes, q) == node_weight(nodes, i) + queue_weight(
            nodes,
            q.drop_first(),
        ));
        if 0 <= i < nodes.len() {
            lemma_visit_node_distinct(nodes, i, acc);
            let g = guarded_children(nodes, descend_children(nodes[i]), i);
            lemma_queue_weight_concat(nodes, q.drop_first(), g);
            lemma_guarded_weight(nodes, descend_children(nodes[i]), i);
            lemma_children_weight_le(nodes, nodes[i], i);
            lemma_extract_from_queue_distinct(
                nodes,
                q.drop_first() + g,
                visit_node(nodes, i, acc),
            );
        } else {
            lemma_extract_from_queue_distinct(nodes, q.drop_first(), acc);
        }
    }
}

/// Fragments are deduplicated by exact string equality: a fragment that
/// appears at several tree locations enters the extraction result once.
pub proof fn lemma_extraction_deduplicated(tree: DocTree)
    ensures
        distinct_fragments(spec_extract(tree)),
{
    if tree.nodes@.len() > 0 {
        lemma_extract_from_queue_distinct(tree.nodes@, seq![0], Seq::empty());
    }
}

/// Global index assignment is deterministic: extraction is a function of
/// the tree, so two extraction results over the same tree are the same
/// fragment list in the same order.
pub proof fn lemma_extraction_deterministic(
    tree: DocTree,
    r1: Seq<Seq<char>>,
    r2: Seq<Seq<char>>,
)
    requires
        r1 == spec_extract(tree),
        r2 == spec_extract(tree),
    ensures
        r1 == r2,
{
}

} // verus!
