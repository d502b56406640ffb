//! The whole pipeline on an in-memory document, and the guarantees that tie
//! its steps together: the retained set is computed once, the store is cut
//! down to exactly that set, no surviving composite reference dangles, and
//! the remaining metadata names surviving glyphs only.

use vstd::prelude::*;

use crate::model::{name_set, store_has, svs, Document, Glyph};
use crate::prune::{kept_entries, kept_glyphs, kept_names, lemma_kept_entries_members,
    lemma_kept_glyphs_distinct, lemma_kept_glyphs_members, lemma_kept_glyphs_store_has,
    lemma_kept_names_members, prune_document, rewrite_metadata, tool_creator};
use crate::retain::{compute_retained, directly_wanted, lemma_retained_set_least, retained_set,
    wanted_name};

verus! {

/// Reduces the document to the retained glyphs and their metadata: computes
/// the retained set from the store and the allow-list, prunes the store,
/// the extra layers and the dropped tables, and rewrites the metadata.
///
/// The surviving store holds exactly the retained names; every component
/// base of a surviving glyph that the original store had still resolves; the
/// kerning, groups and feature tables and the non-default layers are gone
/// whatever they held; the metadata tables keep exactly their retained
/// entries, in order; and the creator field carries the tool identifier.
pub fn subset_document(doc: &mut Document, allow: &Vec<String>)
    requires
        old(doc).wf(),
    ensures
        final(doc).wf(),
        final(doc).glyphs@ == kept_glyphs(
            old(doc).glyphs@,
            retained_set(old(doc).glyphs@, svs(allow@)),
        ),
        forall|n: Seq<char>|
            store_has(final(doc).glyphs@, n) <==> #[trigger] retained_set(
                old(doc).glyphs@,
                svs(allow@),
            ).contains(n),
        forall|i: int, j: int|
            0 <= i < final(doc).glyphs@.len() && 0 <= j < final(doc).glyphs@[i].components@.len()
                && store_has(old(doc).glyphs@, #[trigger] final(doc).glyphs@[i].components@[j]@)
                ==> store_has(final(doc).glyphs@, final(doc).glyphs@[i].components@[j]@),
        final(doc).extra_layers@.len() == 0,
        !final(doc).has_kerning,
        !final(doc).has_groups,
        !final(doc).has_features,
        (old(doc).glyph_order matches Some(order) ==> final(doc).glyph_order matches Some(fo)
            && fo@ == kept_names(order@, retained_set(old(doc).glyphs@, svs(allow@)))),
        (old(doc).glyph_order is None ==> final(doc).glyph_order is None),
        (old(doc).postscript_names matches Some(entries) ==> final(doc).postscript_names
            matches Some(fe) && fe@ == kept_entries(
            entries@,
            retained_set(old(doc).glyphs@, svs(allow@)),
        )),
        (old(doc).postscript_names is None ==> final(doc).postscript_names is None),
        (final(doc).glyph_order matches Some(fo) ==> forall|t: int|
            0 <= t < fo@.len() ==> store_has(final(doc).glyphs@, #[trigger] fo@[t]@)),
        (final(doc).postscript_names matches Some(fe) ==> forall|t: int|
            0 <= t < fe@.len() ==> store_has(final(doc).glyphs@, (#[trigger] fe@[t]).key@)),
        final(doc).creator@ == tool_creator(),
{
    let ghost gs = doc.glyphs@;
    let ghost al = svs(allow@);
    let retained = compute_retained(&doc.glyphs, allow);
    prune_document(doc, &retained);
    rewrite_metadata(doc, &retained);
    proof {
        let rset = retained_set(gs, al);
        assert(name_set(svs(retained@)) == rset);
        lemma_retained_set_least(gs, al);
        lemma_kept_glyphs_distinct(gs, rset);
        lemma_kept_glyphs_members(gs, rset);
        let fin = doc.glyphs@;
        assert(fin == kept_glyphs(gs, rset));
        assert forall|n: Seq<char>| store_has(fin, n) <==> #[trigger] rset.contains(n) by {
            lemma_kept_glyphs_store_has(gs, rset, n);
        }
        assert forall|i: int, j: int|
            0 <= i < fin.len() && 0 <= j < fin[i].components@.len() && store_has(
                gs,
                #[trigger] fin[i].components@[j]@,
            ) implies store_has(fin, fin[i].components@[j]@) by {
            assert(rset.contains(fin[i].name@) && gs.contains(fin[i]));
            let w = choose|w: int| 0 <= w < gs.len() && gs[w] == fin[i];
            assert(rset.contains(gs[w].components@[j]@));
        }
        match &doc.glyph_order {
            Some(fo) => {
                lemma_kept_names_members(old(doc).glyph_order->0@, rset);
                assert forall|t: int| 0 <= t < fo@.len() implies store_has(
                    fin,
                    #[trigger] fo@[t]@,
                ) by {
                    assert(rset.contains(fo@[t]@));
                }
            },
            None => {},
        }
        match &doc.postscript_names {
            Some(fe) => {
                lemma_kept_entries_members(old(doc).postscript_names->0@, rset);
                assert forall|t: int| 0 <= t < fe@.len() implies store_has(
                    fin,
                    (#[trigger] fe@[t]).key@,
                ) by {
                    assert(rset.contains(fe@[t].key@));
                }
            },
            None => {},
        }
    }
}

/// Re-running the retention predicate on the pruned store finds exactly the
/// directly wanted names of the original store: every directly wanted glyph
/// survives pruning, and no surviving glyph changes its verdict.
pub proof fn lemma_predicate_stable_after_prune(glyphs: Seq<Glyph>, allow: Seq<Seq<char>>)
    ensures
        forall|n: Seq<char>|
            wanted_name(kept_glyphs(glyphs, retained_set(glyphs, allow)), allow, n)
                <==> #[trigger] wanted_name(glyphs, allow, n),
{
    let rset = retained_set(glyphs, allow);
    let kept = kept_glyphs(glyphs, rset);
    lemma_retained_set_least(glyphs, allow);
    lemma_kept_glyphs_members(glyphs, rset);
    assert forall|n: Seq<char>|
        wanted_name(kept, allow, n) <==> #[trigger] wanted_name(glyphs, allow, n) by {
        if wanted_name(kept, allow, n) {
            let t = choose|t: int|
                0 <= t < kept.len() && directly_wanted(#[trigger] kept[t], allow) && kept[t].name@
                    == n;
            assert(glyphs.contains(kept[t]));
            let w = choose|w: int| 0 <= w < glyphs.len() && glyphs[w] == kept[t];
            assert(directly_wanted(glyphs[w], allow) && glyphs[w].name@ == n);
        }
        if wanted_name(glyphs, allow, n) {
            let t = choose|t: int|
                0 <= t < glyphs.len() && directly_wanted(#[trigger] glyphs[t], allow)
                    && glyphs[t].name@ == n;
            assert(rset.contains(glyphs[t].name@));
            assert(kept.contains(glyphs[t]));
            let w = choose|w: int| 0 <= w < kept.len() && kept[w] == glyphs[t];
            assert(directly_wanted(kept[w], allow) && kept[w].name@ == n);
        }
    }
}

} // verus!
