//! The dependency closure: transitive composites, dangling bases, cycles.

use ufo_subset::config::default_allow_list;
use ufo_subset::model::{Document, Glyph};
use ufo_subset::pipeline::subset_document;
use ufo_subset::retain::compute_retained;

fn glyph(name: &str, codepoints: Vec<u32>, components: Vec<&str>) -> Glyph {
    Glyph {
        name: name.to_string(),
        codepoints,
        components: components.into_iter().map(|c| c.to_string()).collect(),
    }
}

fn document(glyphs: Vec<Glyph>) -> Document {
    Document {
        glyphs,
        extra_layers: Vec::new(),
        has_kerning: false,
        has_groups: false,
        has_features: false,
        glyph_order: None,
        postscript_names: None,
        creator: String::new(),
    }
}

fn contains(names: &[String], name: &str) -> bool {
    names.iter().any(|n| n == name)
}

#[test]
fn transitive_composite_scenario() {
    let allow = default_allow_list();
    // "f_f_i" is allow-listed; "f", "f_i" and "i" get no codepoint here, so
    // none of them is directly wanted on its own ("f_i" is listed, "f" and
    // "i" are not) — yet all must survive through the closure.
    let glyphs = vec![
        glyph("f_f_i", vec![], vec!["f", "f_i"]),
        glyph("f_i", vec![], vec!["i"]),
        glyph("f", vec![], vec![]),
        glyph("i", vec![], vec![]),
        glyph("florin", vec![0x192], vec![]),
    ];
    let retained = compute_retained(&glyphs, &allow);
    assert!(contains(&retained, "f_f_i"));
    assert!(contains(&retained, "f"));
    assert!(contains(&retained, "f_i"));
    assert!(contains(&retained, "i"));
    assert!(!contains(&retained, "florin"));
}

#[test]
fn closure_is_transitive_through_unwanted_glyphs() {
    let allow = default_allow_list();
    // "A" wants "mid", "mid" wants "deep": both survive although neither is
    // directly wanted.
    let glyphs = vec![
        glyph("A", vec![0x41], vec!["mid"]),
        glyph("mid", vec![], vec!["deep"]),
        glyph("deep", vec![], vec![]),
        glyph("unrelated", vec![], vec![]),
    ];
    let retained = compute_retained(&glyphs, &allow);
    assert!(contains(&retained, "A"));
    assert!(contains(&retained, "mid"));
    assert!(contains(&retained, "deep"));
    assert!(!contains(&retained, "unrelated"));
}

#[test]
fn dangling_base_is_tolerated_and_omitted() {
    let allow = default_allow_list();
    // A directly wanted glyph names a base that no glyph bears: the run
    // succeeds and the retained set simply omits that name.
    let glyphs = vec![glyph("A", vec![0x41], vec!["ghostbase"])];
    let retained = compute_retained(&glyphs, &allow);
    assert!(contains(&retained, "A"));
    assert!(!contains(&retained, "ghostbase"));
    assert_eq!(retained.len(), 1);
}

#[test]
fn dangling_base_survives_the_whole_pipeline() {
    let allow = default_allow_list();
    let mut doc = document(vec![glyph("A", vec![0x41], vec!["ghostbase"])]);
    subset_document(&mut doc, &allow);
    assert_eq!(doc.glyphs.len(), 1);
    assert_eq!(doc.glyphs[0].name, "A");
}

#[test]
fn cyclic_components_terminate() {
    let allow = default_allow_list();
    // "A" includes "loop_b", which includes "loop_a", which includes
    // "loop_b" again: the closure must settle, retaining the whole cycle.
    let glyphs = vec![
        glyph("A", vec![0x41], vec!["loop_b"]),
        glyph("loop_b", vec![], vec!["loop_a"]),
        glyph("loop_a", vec![], vec!["loop_b"]),
    ];
    let retained = compute_retained(&glyphs, &allow);
    assert_eq!(retained.len(), 3);
    assert!(contains(&retained, "loop_a"));
    assert!(contains(&retained, "loop_b"));
}

#[test]
fn self_referential_component_terminates() {
    let allow = default_allow_list();
    let glyphs = vec![glyph("A", vec![0x41], vec!["A"])];
    let retained = compute_retained(&glyphs, &allow);
    assert_eq!(retained, vec!["A".to_string()]);
}

#[test]
fn unwanted_composites_drag_nothing_in() {
    let allow = default_allow_list();
    // "florin" is not retained, so its component base contributes nothing.
    let glyphs = vec![
        glyph("florin", vec![0x192], vec!["f"]),
        glyph("f", vec![], vec![]),
    ];
    let retained = compute_retained(&glyphs, &allow);
    assert!(retained.is_empty());
}
