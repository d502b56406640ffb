//! The pruning executor and the metadata rewriter over whole documents.

use ufo_subset::config::default_allow_list;
use ufo_subset::model::{Document, Glyph, PsNameEntry};
use ufo_subset::pipeline::subset_document;

fn glyph(name: &str, codepoints: Vec<u32>, components: Vec<&str>) -> Glyph {
    Glyph {
        name: name.to_string(),
        codepoints,
        components: components.into_iter().map(|c| c.to_string()).collect(),
    }
}

fn names(list: &[&str]) -> Vec<String> {
    list.iter().map(|n| n.to_string()).collect()
}

#[test]
fn kerning_groups_features_and_layers_are_dropped_unconditionally() {
    let allow = default_allow_list();
    let mut doc = Document {
        glyphs: vec![glyph("A", vec![0x41], vec![])],
        extra_layers: names(&["public.background", "sketches", "mask"]),
        has_kerning: true,
        has_groups: true,
        has_features: true,
        glyph_order: None,
        postscript_names: None,
        creator: String::new(),
    };
    subset_document(&mut doc, &allow);
    assert!(doc.extra_layers.is_empty());
    assert!(!doc.has_kerning);
    assert!(!doc.has_groups);
    assert!(!doc.has_features);
}

#[test]
fn glyph_order_keeps_only_retained_names_in_order() {
    let allow = default_allow_list();
    let mut doc = Document {
        glyphs: vec![
            glyph("A", vec![0x41], vec![]),
            glyph("B", vec![0x42], vec![]),
            glyph("florin", vec![0x192], vec![]),
        ],
        extra_layers: Vec::new(),
        has_kerning: false,
        has_groups: false,
        has_features: false,
        glyph_order: Some(names(&["florin", "B", "ghostname", "A"])),
        postscript_names: None,
        creator: String::new(),
    };
    subset_document(&mut doc, &allow);
    assert_eq!(doc.glyph_order, Some(names(&["B", "A"])));
}

#[test]
fn postscript_names_keep_only_retained_keys() {
    let allow = default_allow_list();
    let mut doc = Document {
        glyphs: vec![
            glyph("A", vec![0x41], vec![]),
            glyph("florin", vec![0x192], vec![]),
        ],
        extra_layers: Vec::new(),
        has_kerning: false,
        has_groups: false,
        has_features: false,
        glyph_order: None,
        postscript_names: Some(vec![
            PsNameEntry { key: "A".to_string(), alt: "uni0041".to_string() },
            PsNameEntry { key: "florin".to_string(), alt: "uni0192".to_string() },
        ]),
        creator: String::new(),
    };
    subset_document(&mut doc, &allow);
    let entries = doc.postscript_names.expect("mapping should stay present");
    assert_eq!(entries.len(), 1);
    assert_eq!(entries[0].key, "A");
    assert_eq!(entries[0].alt, "uni0041");
}

#[test]
fn absent_metadata_tables_stay_absent() {
    let allow = default_allow_list();
    let mut doc = Document {
        glyphs: vec![glyph("A", vec![0x41], vec![])],
        extra_layers: Vec::new(),
        has_kerning: false,
        has_groups: false,
        has_features: false,
        glyph_order: None,
        postscript_names: None,
        creator: String::new(),
    };
    subset_document(&mut doc, &allow);
    assert!(doc.glyph_order.is_none());
    assert!(doc.postscript_names.is_none());
}

#[test]
fn creator_is_stamped() {
    let allow = default_allow_list();
    let mut doc = Document {
        glyphs: Vec::new(),
        extra_layers: Vec::new(),
        has_kerning: false,
        has_groups: false,
        has_features: false,
        glyph_order: None,
        postscript_names: None,
        creator: "com.example.editor".to_string(),
    };
    subset_document(&mut doc, &allow);
    assert_eq!(doc.creator, "org.linebender.norad");
}

#[test]
fn empty_store_prunes_to_empty() {
    let allow = default_allow_list();
    let mut doc = Document {
        glyphs: Vec::new(),
        extra_layers: names(&["public.background"]),
        has_kerning: true,
        has_groups: false,
        has_features: true,
        glyph_order: Some(names(&["anything"])),
        postscript_names: None,
        creator: String::new(),
    };
    subset_document(&mut doc, &allow);
    assert!(doc.glyphs.is_empty());
    assert!(doc.extra_layers.is_empty());
    assert!(!doc.has_kerning);
    assert!(!doc.has_features);
    assert_eq!(doc.glyph_order, Some(Vec::new()));
    assert_eq!(doc.creator, "org.linebender.norad");
}

#[test]
fn duplicate_retained_order_entries_stay_in_place() {
    let allow = default_allow_list();
    let mut doc = Document {
        glyphs: vec![glyph("A", vec![0x41], vec![]), glyph("florin", vec![0x192], vec![])],
        extra_layers: Vec::new(),
        has_kerning: false,
        has_groups: false,
        has_features: false,
        glyph_order: Some(names(&["A", "florin", "A"])),
        postscript_names: None,
        creator: String::new(),
    };
    subset_document(&mut doc, &allow);
    assert_eq!(doc.glyph_order, Some(names(&["A", "A"])));
}

#[test]
fn surviving_composites_keep_their_bases() {
    let allow = default_allow_list();
    let mut doc = Document {
        glyphs: vec![
            glyph("f_f_i", vec![], vec!["f", "f_i"]),
            glyph("f_i", vec![], vec!["i"]),
            glyph("f", vec![], vec![]),
            glyph("i", vec![], vec![]),
            glyph("florin", vec![0x192], vec![]),
        ],
        extra_layers: Vec::new(),
        has_kerning: false,
        has_groups: false,
        has_features: false,
        glyph_order: None,
        postscript_names: None,
        creator: String::new(),
    };
    subset_document(&mut doc, &allow);
    // Every component base of a surviving glyph resolves in the output.
    for g in &doc.glyphs {
        for base in &g.components {
            assert!(
                doc.glyphs.iter().any(|h| h.name == *base),
                "dangling base {} of {}",
                base,
                g.name
            );
        }
    }
    assert_eq!(doc.glyphs.len(), 4);
    assert!(!doc.glyphs.iter().any(|g| g.name == "florin"));
}
