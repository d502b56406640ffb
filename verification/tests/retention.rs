//! The retention predicate on single glyphs, and the basic-latin scenario.

use ufo_subset::config::default_allow_list;
use ufo_subset::model::{Document, Glyph};
use ufo_subset::pipeline::subset_document;
use ufo_subset::retain::{compute_retained, glyph_directly_wanted};

fn glyph(name: &str, codepoints: Vec<u32>, components: Vec<&str>) -> Glyph {
    Glyph {
        name: name.to_string(),
        codepoints,
        components: components.into_iter().map(|c| c.to_string()).collect(),
    }
}

fn document(glyphs: Vec<Glyph>) -> Document {
    Document {
        glyphs,
        extra_layers: Vec::new(),
        has_kerning: false,
        has_groups: false,
        has_features: false,
        glyph_order: None,
        postscript_names: None,
        creator: String::new(),
    }
}

fn has_glyph(doc: &Document, name: &str) -> bool {
    doc.glyphs.iter().any(|g| g.name == name)
}

#[test]
fn primary_codepoint_in_basic_latin_is_wanted() {
    let allow = default_allow_list();
    assert!(glyph_directly_wanted(&glyph("A", vec![0x41], vec![]), &allow));
    assert!(glyph_directly_wanted(&glyph("null", vec![0x00], vec![]), &allow));
    assert!(glyph_directly_wanted(&glyph("asciitilde", vec![0x7e], vec![]), &allow));
    assert!(glyph_directly_wanted(&glyph("del", vec![0x7f], vec![]), &allow));
}

#[test]
fn primary_codepoint_outside_basic_latin_is_not_wanted() {
    let allow = default_allow_list();
    assert!(!glyph_directly_wanted(&glyph("florin", vec![0x192], vec![]), &allow));
    assert!(!glyph_directly_wanted(&glyph("pad", vec![0x80], vec![]), &allow));
}

#[test]
fn only_the_primary_codepoint_counts() {
    let allow = default_allow_list();
    // The first codepoint is primary: a later basic-latin codepoint does not help.
    assert!(!glyph_directly_wanted(&glyph("odd", vec![0x192, 0x41], vec![]), &allow));
    assert!(glyph_directly_wanted(&glyph("other", vec![0x41, 0x192], vec![]), &allow));
}

#[test]
fn allow_listed_name_is_wanted_without_codepoints() {
    let allow = default_allow_list();
    assert!(glyph_directly_wanted(&glyph("f_f_i", vec![], vec![]), &allow));
    assert!(glyph_directly_wanted(&glyph(".notdef", vec![], vec![]), &allow));
    assert!(glyph_directly_wanted(&glyph("nine.osf", vec![0x192], vec![]), &allow));
}

#[test]
fn unlisted_name_without_codepoint_is_not_wanted() {
    let allow = default_allow_list();
    assert!(!glyph_directly_wanted(&glyph("ornament", vec![], vec![]), &allow));
    // Membership is verbatim: neither case variants nor substrings count.
    assert!(!glyph_directly_wanted(&glyph("F_F_I", vec![], vec![]), &allow));
    assert!(!glyph_directly_wanted(&glyph("f_f_", vec![], vec![]), &allow));
}

#[test]
fn basic_latin_retention_scenario() {
    let allow = default_allow_list();
    let mut doc = document(vec![
        glyph("A", vec![0x41], vec![]),
        glyph("florin", vec![0x192], vec![]),
    ]);
    subset_document(&mut doc, &allow);
    assert!(has_glyph(&doc, "A"));
    assert!(!has_glyph(&doc, "florin"));
    assert_eq!(doc.glyphs.len(), 1);
}

#[test]
fn retained_names_come_in_store_order_without_duplicates() {
    let allow = default_allow_list();
    let glyphs = vec![
        glyph("florin", vec![0x192], vec![]),
        glyph("B", vec![0x42], vec![]),
        glyph("A", vec![0x41], vec![]),
    ];
    let retained = compute_retained(&glyphs, &allow);
    assert_eq!(retained, vec!["B".to_string(), "A".to_string()]);
}
