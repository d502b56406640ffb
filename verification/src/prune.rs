//! The pruning executor and the metadata rewriter.
//!
//! Given the retained names, the executor removes every other glyph from the
//! default layer, removes every other layer, and drops the kerning, groups
//! and feature tables outright. The rewriter then filters the glyph-ordering
//! list and the PostScript-name mapping down to retained names, preserving
//! their order, and stamps the document with the tool identifier.

use vstd::prelude::*;

use crate::model::{contains_name, distinct_names, name_set, store_has, svs, Document, Glyph,
    PsNameEntry};

verus! {

broadcast use vstd::seq_lib::group_seq_lib_default;

/// The glyphs of the store whose name is in the set, in store order.
pub open spec fn kept_glyphs(s: Seq<Glyph>, r: Set<Seq<char>>) -> Seq<Glyph>
    decreases s.len(),
{
    if s.len() == 0 {
        Seq::empty()
    } else {
        let rest = kept_glyphs(s.drop_first(), r);
        if r.contains(s[0].name@) {
            seq![s[0]] + rest
        } else {
            rest
        }
    }
}

/// The names of the list that are in the set, in list order.
pub open spec fn kept_names(s: Seq<String>, r: Set<Seq<char>>) -> Seq<String>
    decreases s.len(),
{
    if s.len() == 0 {
        Seq::empty()
    } else {
        let rest = kept_names(s.drop_first(), r);
        if r.contains(s[0]@) {
            seq![s[0]] + rest
        } else {
            rest
        }
    }
}

/// The entries of the mapping whose key is in the set, in entry order.
pub open spec fn kept_entries(s: Seq<PsNameEntry>, r: Set<Seq<char>>) -> Seq<PsNameEntry>
    decreases s.len(),
{
    if s.len() == 0 {
        Seq::empty()
    } else {
        let rest = kept_entries(s.drop_first(), r);
        if r.contains(s[0].key@) {
            seq![s[0]] + rest
        } else {
            rest
        }
    }
}

/// Every kept glyph has a retained name and comes from the store; every
/// store glyph with a retained name is kept.
pub proof fn lemma_kept_glyphs_members(s: Seq<Glyph>, r: Set<Seq<char>>)
    ensures
        forall|t: int|
            0 <= t < kept_glyphs(s, r).len() ==> r.contains(
                (#[trigger] kept_glyphs(s, r)[t]).name@,
            ) && s.contains(kept_glyphs(s, r)[t]),
        forall|t: int|
            0 <= t < s.len() && r.contains((#[trigger] s[t]).name@) ==> kept_glyphs(s, r).contains(
                s[t],
            ),
    decreases s.len(),
{
    if s.len() > 0 {
        let rest = s.drop_first();
        lemma_kept_glyphs_members(rest, r);
        let kr = kept_glyphs(rest, r);
        let k = kept_glyphs(s, r);
        assert forall|t: int|
            0 <= t < k.len() implies r.contains((#[trigger] k[t]).name@) && s.contains(k[t]) by {
            if r.contains(s[0].name@) {
                if t == 0 {
                    assert(k[t] == s[0]);
                } else {
                    assert(k[t] == kr[t - 1]);
                    assert(rest.contains(kr[t - 1]));
                    let w = choose|w: int| 0 <= w < rest.len() && rest[w] == kr[t - 1];
                    assert(s[w + 1] == kr[t - 1]);
                }
            } else {
                assert(k[t] == kr[t]);
                assert(rest.contains(kr[t]));
                let w = choose|w: int| 0 <= w < rest.len() && rest[w] == kr[t];
                assert(s[w + 1] == kr[t]);
            }
        }
        assert forall|t: int|
            0 <= t < s.len() && r.contains((#[trigger] s[t]).name@) implies k.contains(s[t]) by {
            if t == 0 {
                assert(k[0] == s[0]);
            } else {
                assert(rest[t - 1] == s[t]);
                assert(kr.contains(s[t]));
                let w = choose|w: int| 0 <= w < kr.len() && kr[w] == s[t];
                if r.contains(s[0].name@) {
                    assert(k[w + 1] == s[t]);
                } else {
                    assert(k[w] == s[t]);
                }
            }
        }
    }
}

/// A store with unique names keeps unique names.
pub proof fn lemma_kept_glyphs_distinct(s: Seq<Glyph>, r: Set<Seq<char>>)
    requires
        distinct_names(s),
    ensures
        distinct_names(kept_glyphs(s, r)),
    decreases s.len(),
{
    if s.len() > 0 {
        let rest = s.drop_first();
        assert(distinct_names(rest)) by {
            assert(forall|i: int| 0 <= i < rest.len() ==> #[trigger] rest[i] == s[i + 1]);
        }
        lemma_kept_glyphs_distinct(rest, r);
        lemma_kept_glyphs_members(rest, r);
        let kr = kept_glyphs(rest, r);
        let k = kept_glyphs(s, r);
        if r.contains(s[0].name@) {
            assert forall|i: int, j: int|
                0 <= i < k.len() && 0 <= j < k.len() && i != j implies k[i].name@ != k[j].name@ by {
                if i == 0 || j == 0 {
                    let t = if i == 0 { j } else { i };
                    assert(k[t] == kr[t - 1]);
                    assert(rest.contains(kr[t - 1]));
                    let w = choose|w: int| 0 <= w < rest.len() && rest[w] == kr[t - 1];
                    assert(s[w + 1] == kr[t - 1]);
                    assert(s[0].name@ != s[w + 1].name@);
                } else {
                    assert(k[i] == kr[i - 1] && k[j] == kr[j - 1]);
                }
            }
        }
    }
}

/// The kept store has a name exactly when the store has it and it is
/// retained.
pub proof fn lemma_kept_glyphs_store_has(s: Seq<Glyph>, r: Set<Seq<char>>, n: Seq<char>)
    ensures
        store_has(kept_glyphs(s, r), n) <==> (store_has(s, n) && r.contains(n)),
{
    lemma_kept_glyphs_members(s, r);
    let k = kept_glyphs(s, r);
    if store_has(k, n) {
        let t = choose|t: int| 0 <= t < k.len() && k[t].name@ == n;
        assert(s.contains(k[t]));
        let w = choose|w: int| 0 <= w < s.len() && s[w] == k[t];
        assert(store_has(s, n));
    }
    if store_has(s, n) && r.contains(n) {
        let t = choose|t: int| 0 <= t < s.len() && s[t].name@ == n;
        assert(k.contains(s[t]));
        let w = choose|w: int| 0 <= w < k.len() && k[w] == s[t];
        assert(store_has(k, n));
    }
}

/// Every kept name is retained.
pub proof fn lemma_kept_names_members(s: Seq<String>, r: Set<Seq<char>>)
    ensures
        forall|t: int|
            0 <= t < kept_names(s, r).len() ==> r.contains(#[trigger] kept_names(s, r)[t]@),
    decreases s.len(),
{
    if s.len() > 0 {
        let rest = s.drop_first();
        lemma_kept_names_members(rest, r);
        let kr = kept_names(rest, r);
        let k = kept_names(s, r);
        assert forall|t: int| 0 <= t < k.len() implies r.contains(#[trigger] k[t]@) by {
            if r.contains(s[0]@) {
                if t == 0 {
                    assert(k[t] == s[0]);
                } else {
                    assert(k[t] == kr[t - 1]);
                }
            } else {
                assert(k[t] == kr[t]);
            }
        }
    }
}

/// Every kept entry's key is retained.
pub proof fn lemma_kept_entries_members(s: Seq<PsNameEntry>, r: Set<Seq<char>>)
    ensures
        forall|t: int|
            0 <= t < kept_entries(s, r).len() ==> r.contains(
                #[trigger] kept_entries(s, r)[t].key@,
            ),
    decreases s.len(),
{
    if s.len() > 0 {
        let rest = s.drop_first();
        lemma_kept_entries_members(rest, r);
        let kr = kept_entries(rest, r);
        let k = kept_entries(s, r);
        assert forall|t: int| 0 <= t < k.len() implies r.contains(#[trigger] k[t].key@) by {
            if r.contains(s[0].key@) {
                if t == 0 {
                    assert(k[t] == s[0]);
                } else {
                    assert(k[t] == kr[t - 1]);
                }
            } else {
                assert(k[t] == kr[t]);
            }
        }
    }
}

/// Removes from the store every glyph whose name is not retained, keeping
/// the others in order.
pub fn prune_glyphs(glyphs: &mut Vec<Glyph>, retained: &Vec<String>)
    ensures
        final(glyphs)@ == kept_glyphs(old(glyphs)@, name_set(svs(retained@))),
{
    let ghost orig = glyphs@;
    let ghost rset = name_set(svs(retained@));
    let mut i: usize = 0;
    let ghost mut k: int = 0;
    proof {
        assert(orig.subrange(0, orig.len() as int) =~= orig);
        assert(glyphs@.subrange(0, 0) + orig =~= orig);
    }
    while i < glyphs.len()
        invariant
            0 <= k <= orig.len(),
            i <= glyphs@.len(),
            rset == name_set(svs(retained@)),
            glyphs@ == glyphs@.subrange(0, i as int) + orig.subrange(k, orig.len() as int),
            kept_glyphs(orig, rset) == glyphs@.subrange(0, i as int) + kept_glyphs(
                orig.subrange(k, orig.len() as int),
                rset,
            ),
        decreases orig.len() - k,
    {
        proof {
            assert(glyphs@[i as int] == orig.subrange(k, orig.len() as int)[0]);
            assert(orig.subrange(k, orig.len() as int).drop_first() =~= orig.subrange(
                k + 1,
                orig.len() as int,
            ));
        }
        let keep = contains_name(retained, &glyphs[i].name);
        if keep {
            let ghost pre = glyphs@;
            i += 1;
            proof {
                k = k + 1;
                assert(pre.subrange(0, i as int) =~= pre.subrange(0, i - 1) + seq![orig[k - 1]]);
                assert(pre =~= pre.subrange(0, i as int) + orig.subrange(k, orig.len() as int));
                assert(kept_glyphs(orig, rset) =~= pre.subrange(0, i as int) + kept_glyphs(
                    orig.subrange(k, orig.len() as int),
                    rset,
                ));
            }
        } else {
            let ghost pre = glyphs@;
            glyphs.remove(i);
            proof {
                k = k + 1;
                assert(glyphs@ =~= pre.subrange(0, i as int) + orig.subrange(
                    k,
                    orig.len() as int,
                ));
                assert(glyphs@.subrange(0, i as int) =~= pre.subrange(0, i as int));
            }
        }
    }
    proof {
        assert(orig.len() - k == glyphs@.len() - i);
        assert(k == orig.len());
        assert(orig.subrange(k, orig.len() as int) =~= Seq::<Glyph>::empty());
        assert(glyphs@.subrange(0, i as int) =~= glyphs@);
    }
}

/// Removes from the list every name that is not retained, keeping the
/// others in order.
pub fn retain_names(names: &mut Vec<String>, retained: &Vec<String>)
    ensures
        final(names)@ == kept_names(old(names)@, name_set(svs(retained@))),
{
    let ghost orig = names@;
    let ghost rset = name_set(svs(retained@));
    let mut i: usize = 0;
    let ghost mut k: int = 0;
    proof {
        assert(orig.subrange(0, orig.len() as int) =~= orig);
        assert(names@.subrange(0, 0) + orig =~= orig);
    }
    while i < names.len()
        invariant
            0 <= k <= orig.len(),
            i <= names@.len(),
            rset == name_set(svs(retained@)),
            names@ == names@.subrange(0, i as int) + orig.subrange(k, orig.len() as int),
            kept_names(orig, rset) == names@.subrange(0, i as int) + kept_names(
                orig.subrange(k, orig.len() as int),
                rset,
            ),
        decreases orig.len() - k,
    {
        proof {
            assert(names@[i as int] == orig.subrange(k, orig.len() as int)[0]);
            assert(orig.subrange(k, orig.len() as int).drop_first() =~= orig.subrange(
                k + 1,
                orig.len() as int,
            ));
        }
        let keep = contains_name(retained, &names[i]);
        if keep {
            let ghost pre = names@;
            i += 1;
            proof {
                k = k + 1;
                assert(pre.subrange(0, i as int) =~= pre.subrange(0, i - 1) + seq![orig[k - 1]]);
                assert(pre =~= pre.subrange(0, i as int) + orig.subrange(k, orig.len() as int));
                assert(kept_names(orig, rset) =~= pre.subrange(0, i as int) + kept_names(
                    orig.subrange(k, orig.len() as int),
                    rset,
                ));
            }
        } else {
            let ghost pre = names@;
            names.remove(i);
            proof {
                k = k + 1;
                assert(names@ =~= pre.subrange(0, i as int) + orig.subrange(
                    k,
                    orig.len() as int,
                ));
                assert(names@.subrange(0, i as int) =~= pre.subrange(0, i as int));
            }
        }
    }
    proof {
        assert(k == orig.len());
        assert(orig.subrange(k, orig.len() as int) =~= Seq::<String>::empty());
        assert(names@.subrange(0, i as int) =~= names@);
    }
}

/// Removes from the mapping every entry whose key is not retained, keeping
/// the others in order.
pub fn retain_entries(entries: &mut Vec<PsNameEntry>, retained: &Vec<String>)
    ensures
        final(entries)@ == kept_entries(old(entries)@, name_set(svs(retained@))),
{
    let ghost orig = entries@;
    let ghost rset = name_set(svs(retained@));
    let mut i: usize = 0;
    let ghost mut k: int = 0;
    proof {
        assert(orig.subrange(0, orig.len() as int) =~= orig);
        assert(entries@.subrange(0, 0) + orig =~= orig);
    }
    while i < entries.len()
        invariant
            0 <= k <= orig.len(),
            i <= entries@.len(),
            rset == name_set(svs(retained@)),
            entries@ == entries@.subrange(0, i as int) + orig.subrange(k, orig.len() as int),
            kept_entries(orig, rset) == entries@.subrange(0, i as int) + kept_entries(
                orig.subrange(k, orig.len() as int),
                rset,
            ),
        decreases orig.len() - k,
    {
        proof {
            assert(entries@[i as int] == orig.subrange(k, orig.len() as int)[0]);
            assert(orig.subrange(k, orig.len() as int).drop_first() =~= orig.subrange(
                k + 1,
                orig.len() as int,
            ));
        }
        let keep = contains_name(retained, &entries[i].key);
        if keep {
            let ghost pre = entries@;
            i += 1;
            proof {
                k = k + 1;
                assert(pre.subrange(0, i as int) =~= pre.subrange(0, i - 1) + seq![orig[k - 1]]);
                assert(pre =~= pre.subrange(0, i as int) + orig.subrange(k, orig.len() as int));
                assert(kept_entries(orig, rset) =~= pre.subrange(0, i as int) + kept_entries(
                    orig.subrange(k, orig.len() as int),
                    rset,
                ));
            }
        } else {
            let ghost pre = entries@;
            entries.remove(i);
            proof {
                k = k + 1;
                assert(entries@ =~= pre.subrange(0, i as int) + orig.subrange(
                    k,
                    orig.len() as int,
                ));
                assert(entries@.subrange(0, i as int) =~= pre.subrange(0, i as int));
            }
        }
    }
    proof {
        assert(k == orig.len());
        assert(orig.subrange(k, orig.len() as int) =~= Seq::<PsNameEntry>::empty());
        assert(entries@.subrange(0, i as int) =~= entries@);
    }
}

/// The identifier stamped into the creator field of the output.
pub open spec fn tool_creator() -> Seq<char> {
    "org.linebender.norad"@
}

/// Removes every glyph whose name is not retained, removes every
/// non-default layer, and drops the kerning, groups and feature tables.
/// The metadata tables and the creator field are left for the rewriter.
pub fn prune_document(doc: &mut Document, retained: &Vec<String>)
    ensures
        final(doc).glyphs@ == kept_glyphs(old(doc).glyphs@, name_set(svs(retained@))),
        final(doc).extra_layers@.len() == 0,
        !final(doc).has_kerning,
        !final(doc).has_groups,
        !final(doc).has_features,
        final(doc).glyph_order == old(doc).glyph_order,
        final(doc).postscript_names == old(doc).postscript_names,
        final(doc).creator == old(doc).creator,
{
    prune_glyphs(&mut doc.glyphs, retained);
    doc.extra_layers.clear();
    doc.has_kerning = false;
    doc.has_groups = false;
    doc.has_features = false;
}

/// Filters the glyph-ordering list and the PostScript-name mapping down to
/// retained names, preserving order; an absent table stays absent. Stamps
/// the creator field with the tool identifier.
pub fn rewrite_metadata(doc: &mut Document, retained: &Vec<String>)
    ensures
        (old(doc).glyph_order matches Some(order) ==> final(doc).glyph_order matches Some(fo)
            && fo@ == kept_names(order@, name_set(svs(retained@)))),
        (old(doc).glyph_order is None ==> final(doc).glyph_order is None),
        (old(doc).postscript_names matches Some(entries) ==> final(doc).postscript_names
            matches Some(fe) && fe@ == kept_entries(entries@, name_set(svs(retained@)))),
        (old(doc).postscript_names is None ==> final(doc).postscript_names is None),
        final(doc).creator@ == tool_creator(),
        final(doc).glyphs == old(doc).glyphs,
        final(doc).extra_layers == old(doc).extra_layers,
        final(doc).has_kerning == old(doc).has_kerning,
        final(doc).has_groups == old(doc).has_groups,
        final(doc).has_features == old(doc).has_features,
{
    let order_opt = doc.glyph_order.take();
    match order_opt {
        Some(mut order) => {
            retain_names(&mut order, retained);
            doc.glyph_order = Some(order);
        },
        None => {},
    }
    let entries_opt = doc.postscript_names.take();
    match entries_opt {
        Some(mut entries) => {
            retain_entries(&mut entries, retained);
            doc.postscript_names = Some(entries);
        },
        None => {},
    }
    doc.creator = "org.linebender.norad".to_owned();
}

} // verus!
