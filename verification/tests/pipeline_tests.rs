use base64::Engine;
use translation_cli::dom::{Attr, DocTree, NodeKind};
use translation_cli::extract::extract_translatable_texts;
use translation_cli::partition::make_batches;
use translation_cli::response::parse_indexed_response;
use translation_cli::rewrite::apply_translations_to_dom;
use translation_cli::translator::{fill_results, parse_batch_response};

fn text_node(tree: &mut DocTree, parent: usize, content: &str) -> usize {
    let idx = tree.push_node(NodeKind::Text { content: content.to_string() });
    tree.attach_child(parent, idx);
    idx
}

fn element_node(tree: &mut DocTree, parent: usize, tag: &str, attrs: Vec<(&str, &str)>) -> usize {
    let attrs = attrs
        .into_iter()
        .map(|(n, v)| Attr { name: n.to_string(), value: v.to_string() })
        .collect();
    let idx = tree.push_node(NodeKind::Element { tag: tag.to_string(), attrs });
    tree.attach_child(parent, idx);
    idx
}

fn trees_equal(a: &DocTree, b: &DocTree) -> bool {
    if a.nodes.len() != b.nodes.len() {
        return false;
    }
    for (na, nb) in a.nodes.iter().zip(b.nodes.iter()) {
        if na.children != nb.children {
            return false;
        }
        let kinds_equal = match (&na.kind, &nb.kind) {
            (NodeKind::Document, NodeKind::Document) => true,
            (NodeKind::Text { content: ca }, NodeKind::Text { content: cb }) => ca == cb,
            (
                NodeKind::Element { tag: ta, attrs: aa },
                NodeKind::Element { tag: tb, attrs: ab },
            ) => {
                ta == tb && aa.len() == ab.len()
                    && aa.iter().zip(ab.iter()).all(|(x, y)| {
                        x.name == y.name && x.value == y.value
                    })
            }
            _ => false,
        };
        if !kinds_equal {
            return false;
        }
    }
    true
}

fn node_text(tree: &DocTree, idx: usize) -> String {
    match &tree.nodes[idx].kind {
        NodeKind::Text { content } => content.clone(),
        _ => panic!("not a text node"),
    }
}

fn attr_value(tree: &DocTree, idx: usize, name: &str) -> String {
    match &tree.nodes[idx].kind {
        NodeKind::Element { attrs, .. } => attrs
            .iter()
            .find(|a| a.name == name)
            .map(|a| a.value.clone())
            .expect("attribute missing"),
        _ => panic!("not an element"),
    }
}

/// Input `<p>Hello</p><p>Hello</p><img alt="Hello">`: one fragment, and a
/// non-empty translation reaches all three occurrences.
#[test]
fn single_fragment_translated_everywhere() {
    let mut tree = DocTree::new();
    let doc = tree.push_node(NodeKind::Document);
    let p1 = element_node(&mut tree, doc, "p", vec![]);
    let p2 = element_node(&mut tree, doc, "p", vec![]);
    let img = element_node(&mut tree, doc, "img", vec![("alt", "Hello")]);
    let t1 = text_node(&mut tree, p1, "Hello");
    let t2 = text_node(&mut tree, p2, "Hello");

    let texts = extract_translatable_texts(&tree);
    assert_eq!(texts, vec!["Hello".to_string()]);

    let translations = vec!["Bonjour".to_string()];
    let translated = apply_translations_to_dom(tree, &texts, &translations);

    assert_eq!(node_text(&translated, t1), "Bonjour");
    assert_eq!(node_text(&translated, t2), "Bonjour");
    assert_eq!(attr_value(&translated, img, "alt"), "Bonjour");
}

/// Extraction yields the same fragment list in the same order on every run.
#[test]
fn extraction_is_deterministic() {
    let mut tree = DocTree::new();
    let doc = tree.push_node(NodeKind::Document);
    let body = element_node(&mut tree, doc, "body", vec![("title", "Front Page")]);
    text_node(&mut tree, body, "Good morning");
    text_node(&mut tree, body, "Good evening");
    let script = element_node(&mut tree, body, "script", vec![]);
    text_node(&mut tree, script, "var label = \"Press the button\";");

    let first = extract_translatable_texts(&tree);
    let second = extract_translatable_texts(&tree);
    assert_eq!(first, second);
    assert!(first.contains(&"Front Page".to_string()));
    assert!(first.contains(&"Good morning".to_string()));
    assert!(first.contains(&"Press the button".to_string()));
}

/// A tree with no translatable text comes through the pipeline unchanged.
#[test]
fn untranslatable_input_unchanged() {
    let build = || {
        let mut tree = DocTree::new();
        let doc = tree.push_node(NodeKind::Document);
        let p = element_node(&mut tree, doc, "p", vec![]);
        text_node(&mut tree, p, "!!");
        text_node(&mut tree, p, "a");
        tree
    };
    let tree = build();
    let texts = extract_translatable_texts(&tree);
    assert!(texts.is_empty());
    let translations = fill_results(texts.len(), &vec![]);
    let translated = apply_translations_to_dom(tree, &texts, &translations);
    assert!(trees_equal(&translated, &build()));
}

/// The identity translation leaves the tree textually identical.
#[test]
fn identity_translation_unchanged() {
    let build = || {
        let mut tree = DocTree::new();
        let doc = tree.push_node(NodeKind::Document);
        let p = element_node(&mut tree, doc, "p", vec![("title", "Small Print")]);
        text_node(&mut tree, p, "Good morning");
        text_node(&mut tree, p, "Good evening");
        tree
    };
    let tree = build();
    let texts = extract_translatable_texts(&tree);
    assert!(!texts.is_empty());
    let identity = texts.clone();
    let translated = apply_translations_to_dom(tree, &texts, &identity);
    assert!(trees_equal(&translated, &build()));
}

/// The documented parser scenario: index-tagged lines are recovered and
/// noise is ignored.
#[test]
fn parser_recovers_tagged_lines() {
    let pairs = parse_indexed_response("[2] bonjour\nnoise\n[0] hello");
    assert_eq!(pairs, vec![(2, "bonjour".to_string()), (0, "hello".to_string())]);
}

#[test]
fn parser_tolerates_blank_and_malformed_lines() {
    let pairs = parse_indexed_response("\n[x] nope\n[3]   \n[1] ok\n[] nothing\n");
    assert_eq!(pairs, vec![(1, "ok".to_string())]);
}

#[test]
fn parser_handles_empty_input() {
    assert!(parse_indexed_response("").is_empty());
    assert!(parse_indexed_response("nothing tagged here").is_empty());
}

/// The JSON envelope is peeled off when present; a raw body is parsed as is.
#[test]
fn batch_response_envelope() {
    let pairs = parse_batch_response("{\"data\": \"[0] salut\"}");
    assert_eq!(pairs, vec![(0, "salut".to_string())]);

    let pairs = parse_batch_response("{\"text\": \"[1] hallo\"}");
    assert_eq!(pairs, vec![(1, "hallo".to_string())]);

    let pairs = parse_batch_response("{\"result\": \"[2] hej\"}");
    assert_eq!(pairs, vec![(2, "hej".to_string())]);

    let pairs = parse_batch_response("[1] ciao");
    assert_eq!(pairs, vec![(1, "ciao".to_string())]);

    assert!(parse_batch_response("{\"other\": 3}").is_empty());
}

/// Partitioning: contiguous batches, global indices in the payload, every
/// fragment covered exactly once.
#[test]
fn batches_cover_fragments() {
    let texts: Vec<String> = vec![
        "Alpha one", "Beta two", "Gamma three", "Delta four", "Epsilon five", "Zeta six",
        "Eta seven",
    ]
    .into_iter()
    .map(|s| s.to_string())
    .collect();
    let batches = make_batches(&texts, 2);
    // ceil(7 / 2) = 4, so the batch size floor of five applies.
    assert_eq!(batches.len(), 2);
    assert_eq!(batches[0].start, 0);
    assert_eq!(batches[0].count, 5);
    assert_eq!(batches[1].start, 5);
    assert_eq!(batches[1].count, 2);
    assert_eq!(
        batches[0].payload,
        "[0] Alpha one\n[1] Beta two\n[2] Gamma three\n[3] Delta four\n[4] Epsilon five"
    );
    assert_eq!(batches[1].payload, "[5] Zeta six\n[6] Eta seven");
}

#[test]
fn batch_payload_trims_fragments() {
    let texts: Vec<String> = vec!["  Hello  ".to_string(), "World".to_string()];
    let batches = make_batches(&texts, 1);
    assert_eq!(batches.len(), 1);
    assert_eq!(batches[0].payload, "[0] Hello\n[1] World");
}

#[test]
fn batches_split_evenly() {
    let texts: Vec<String> = (0..10).map(|k| format!("Fragment number {}", k)).collect();
    let batches = make_batches(&texts, 2);
    assert_eq!(batches.len(), 2);
    assert_eq!(batches[0].start, 0);
    assert_eq!(batches[0].count, 5);
    assert_eq!(batches[1].start, 5);
    assert_eq!(batches[1].count, 5);
    assert!(batches[1].payload.starts_with("[5] Fragment number 5"));
}

#[test]
fn no_fragments_no_batches() {
    let texts: Vec<String> = vec![];
    assert!(make_batches(&texts, 4).is_empty());
}

/// A timed-out batch leaves its fragments untranslated while other batches
/// land normally.
#[test]
fn failed_batch_leaves_slots_empty() {
    let mut tree = DocTree::new();
    let doc = tree.push_node(NodeKind::Document);
    let body = element_node(&mut tree, doc, "body", vec![]);
    let originals = [
        "Alpha one", "Beta two", "Gamma three", "Delta four", "Epsilon five", "Zeta six",
    ];
    let mut text_ids = Vec::new();
    for t in originals.iter() {
        text_ids.push(text_node(&mut tree, body, t));
    }

    let texts = extract_translatable_texts(&tree);
    assert_eq!(texts.len(), 6);
    let batches = make_batches(&texts, 2);
    assert_eq!(batches.len(), 2);

    // The first batch's request timed out: no pairs come back for it.
    let first_batch_pairs: Vec<(usize, String)> = vec![];
    let second_batch_pairs = parse_batch_response("[5] Zeta sechs");
    let results = fill_results(texts.len(), &vec![first_batch_pairs, second_batch_pairs]);
    assert_eq!(results.len(), 6);
    for slot in results.iter().take(5) {
        assert!(slot.is_empty());
    }
    assert_eq!(results[5], "Zeta sechs");

    let translated = apply_translations_to_dom(tree, &texts, &results);
    for (k, id) in text_ids.iter().enumerate() {
        if k < 5 {
            assert_eq!(node_text(&translated, *id), originals[k]);
        } else {
            assert_eq!(node_text(&translated, *id), "Zeta sechs");
        }
    }
}

/// Out-of-range indices are discarded; a later batch wins a contested slot.
#[test]
fn fill_results_ranges_and_overwrites() {
    let pairs_a = vec![(0, "first".to_string()), (9, "out of range".to_string())];
    let pairs_b = vec![(0, "second".to_string()), (1, "kept".to_string())];
    let results = fill_results(2, &vec![pairs_a, pairs_b]);
    assert_eq!(results, vec!["second".to_string(), "kept".to_string()]);
}

/// Script bodies contribute string literals, `"text"` values, JSON keys
/// and user-interface key values.
#[test]
fn script_heuristics_extract_candidates() {
    let mut tree = DocTree::new();
    let doc = tree.push_node(NodeKind::Document);
    let script = element_node(&mut tree, doc, "script", vec![]);
    text_node(
        &mut tree,
        script,
        "let a = 'Hello friendly world'; let b = {\"text\": \"Nice day\", \"menu_label\": 1, \"title\": \"Good evening\"};",
    );

    let texts = extract_translatable_texts(&tree);
    assert!(texts.contains(&"Hello friendly world".to_string()));
    assert!(texts.contains(&"Nice day".to_string()));
    assert!(texts.contains(&"menu_label".to_string()));
    assert!(texts.contains(&"Good evening".to_string()));
}

/// Script, style and noscript subtrees are excluded from the generic walk.
#[test]
fn skip_tags_excluded_from_walk() {
    let mut tree = DocTree::new();
    let doc = tree.push_node(NodeKind::Document);
    let style = element_node(&mut tree, doc, "style", vec![]);
    text_node(&mut tree, style, "Body wide rules");
    let noscript = element_node(&mut tree, doc, "noscript", vec![]);
    text_node(&mut tree, noscript, "Scripts are off");

    let texts = extract_translatable_texts(&tree);
    assert!(texts.is_empty());
}

/// Duplicate fragments are extracted once, in first-seen order.
#[test]
fn duplicates_extracted_once() {
    let mut tree = DocTree::new();
    let doc = tree.push_node(NodeKind::Document);
    let body = element_node(&mut tree, doc, "body", vec![]);
    text_node(&mut tree, body, "Good morning");
    text_node(&mut tree, body, "Good morning");
    text_node(&mut tree, body, "Good evening");

    let texts = extract_translatable_texts(&tree);
    assert_eq!(texts, vec!["Good morning".to_string(), "Good evening".to_string()]);
}

/// An iframe with an inline base64 HTML document contributes the decoded
/// document's text.
#[test]
fn iframe_base64_document_scanned() {
    let payload = base64::engine::general_purpose::STANDARD.encode("<div>Welcome Home</div>");
    let src = format!("data:text/html;base64,{}", payload);

    let mut tree = DocTree::new();
    let doc = tree.push_node(NodeKind::Document);
    element_node(&mut tree, doc, "iframe", vec![("src", src.as_str())]);

    let texts = extract_translatable_texts(&tree);
    assert_eq!(texts, vec!["Welcome Home".to_string()]);
}

/// An empty translation slot means "no translation": the original text stays.
#[test]
fn empty_translation_leaves_original() {
    let mut tree = DocTree::new();
    let doc = tree.push_node(NodeKind::Document);
    let p = element_node(&mut tree, doc, "p", vec![]);
    let t = text_node(&mut tree, p, "Good morning");

    let texts = extract_translatable_texts(&tree);
    let translations = vec![String::new()];
    let translated = apply_translations_to_dom(tree, &texts, &translations);
    assert_eq!(node_text(&translated, t), "Good morning");
}

/// Text-node fragments need more than one character; a two-character text
/// still counts, and a node of one character or a 200-character run is
/// filtered where its rule demands.
#[test]
fn text_node_length_boundaries() {
    let mut tree = DocTree::new();
    let doc = tree.push_node(NodeKind::Document);
    let p = element_node(&mut tree, doc, "p", vec![]);
    text_node(&mut tree, p, "Hi");
    text_node(&mut tree, p, "x");

    let texts = extract_translatable_texts(&tree);
    assert_eq!(texts, vec!["Hi".to_string()]);
}

/// Translatable attributes inside a `script`/`style`/`noscript` subtree
/// are never rewritten, even when their value matches a translated
/// fragment; attributes outside are.
#[test]
fn excluded_subtree_attributes_untouched() {
    let mut tree = DocTree::new();
    let doc = tree.push_node(NodeKind::Document);
    let p = element_node(&mut tree, doc, "p", vec![]);
    let noscript = element_node(&mut tree, doc, "noscript", vec![]);
    let inner_img = element_node(&mut tree, noscript, "img", vec![("alt", "Hello")]);
    let outer_img = element_node(&mut tree, doc, "img", vec![("alt", "Hello")]);
    let t = text_node(&mut tree, p, "Hello");

    let texts = extract_translatable_texts(&tree);
    assert_eq!(texts, vec!["Hello".to_string()]);

    let translations = vec!["Bonjour".to_string()];
    let translated = apply_translations_to_dom(tree, &texts, &translations);

    assert_eq!(node_text(&translated, t), "Bonjour");
    assert_eq!(attr_value(&translated, outer_img, "alt"), "Bonjour");
    assert_eq!(attr_value(&translated, inner_img, "alt"), "Hello");
}

/// Rewriting never changes tree shape.
#[test]
fn rewrite_preserves_shape() {
    let mut tree = DocTree::new();
    let doc = tree.push_node(NodeKind::Document);
    let body = element_node(&mut tree, doc, "body", vec![]);
    let p = element_node(&mut tree, body, "p", vec![]);
    text_node(&mut tree, p, "Good morning");
    let shape_before: Vec<Vec<usize>> = tree.nodes.iter().map(|n| n.children.clone()).collect();

    let texts = extract_translatable_texts(&tree);
    let translations = vec!["Guten Morgen".to_string()];
    let translated = apply_translations_to_dom(tree, &texts, &translations);
    let shape_after: Vec<Vec<usize>> = translated.nodes.iter().map(|n| n.children.clone()).collect();
    assert_eq!(shape_before, shape_after);
}
