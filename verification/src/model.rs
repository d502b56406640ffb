//! The in-memory model of a font-source document, reduced to the parts that
//! the subsetting pipeline reads and rewrites: glyph names, codepoints,
//! component references, the auxiliary tables that name glyphs, and the
//! presence of the tables that are dropped outright.

use vstd::prelude::*;

verus! {

/// One glyph of the default layer: its name, its ordered codepoints (the
/// first one is the primary codepoint), and the base names of its components.
pub struct Glyph {
    pub name: String,
    pub codepoints: Vec<u32>,
    pub components: Vec<String>,
}

/// One entry of the PostScript-name mapping: a glyph name and the alternate
/// name it maps to.
pub struct PsNameEntry {
    pub key: String,
    pub alt: String,
}

/// A font-source document, as far as the subsetter is concerned.
///
/// The glyph store holds the default layer only; every other layer is kept
/// as a bare name, since it is removed wholesale. The kerning, groups and
/// feature tables are likewise never inspected, only dropped, so only their
/// presence is modelled.
pub struct Document {
    pub glyphs: Vec<Glyph>,
    pub extra_layers: Vec<String>,
    pub has_kerning: bool,
    pub has_groups: bool,
    pub has_features: bool,
    pub glyph_order: Option<Vec<String>>,
    pub postscript_names: Option<Vec<PsNameEntry>>,
    pub creator: String,
}

/// The views of a sequence of strings.
pub open spec fn svs(names: Seq<String>) -> Seq<Seq<char>> {
    names.map_values(|s: String| s@)
}

/// The set of names that a sequence of strings holds.
pub open spec fn name_set(names: Seq<Seq<char>>) -> Set<Seq<char>> {
    Set::new(|n: Seq<char>| names.contains(n))
}

/// Whether some glyph of the store bears this name.
pub open spec fn store_has(glyphs: Seq<Glyph>, n: Seq<char>) -> bool {
    exists|i: int| 0 <= i < glyphs.len() && glyphs[i].name@ == n
}

/// Glyph names are unique within a store.
pub open spec fn distinct_names(glyphs: Seq<Glyph>) -> bool {
    forall|i: int, j: int|
        0 <= i < glyphs.len() && 0 <= j < glyphs.len() && i != j ==> glyphs[i].name@
            != glyphs[j].name@
}

impl Document {
    /// The one structural invariant the pipeline needs: glyph names are
    /// unique within the store.
    pub open spec fn wf(self) -> bool {
        distinct_names(self.glyphs@)
    }
}

/// Whether a string equals one of a list of strings.
pub fn contains_name(names: &Vec<String>, name: &String) -> (r: bool)
    ensures
        r == svs(names@).contains(name@),
{
    let mut i: usize = 0;
    while i < names.len()
        invariant
            i <= names@.len(),
            forall|k: int| 0 <= k < i ==> names@[k]@ != name@,
        decreases names@.len() - i,
    {
        if names[i] == *name {
            assert(svs(names@)[i as int] == name@);
            return true;
        }
        i += 1;
    }
    assert(forall|k: int| 0 <= k < svs(names@).len() ==> svs(names@)[k] != name@);
    false
}

/// The index of the first glyph bearing a name, if the store has one.
pub fn find_glyph(glyphs: &Vec<Glyph>, name: &String) -> (r: Option<usize>)
    ensures
        match r {
            Some(k) => k < glyphs@.len() && glyphs@[k as int].name@ == name@ && forall|t: int|
                0 <= t < k ==> glyphs@[t].name@ != name@,
            None => !store_has(glyphs@, name@),
        },
{
    let mut i: usize = 0;
    while i < glyphs.len()
        invariant
            i <= glyphs@.len(),
            forall|k: int| 0 <= k < i ==> glyphs@[k].name@ != name@,
        decreases glyphs@.len() - i,
    {
        if glyphs[i].name == *name {
            return Some(i);
        }
        i += 1;
    }
    None
}

} // verus!
