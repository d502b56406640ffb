//! The retention predicate and the dependency closure.
//!
//! A glyph is directly wanted when its primary codepoint lies in the first
//! 128 code points or its name is on the allow-list. The retained set is the
//! least superset of the directly wanted names that is closed under
//! component references whose base exists in the store; a base name that no
//! glyph bears contributes nothing.

use vstd::prelude::*;

use crate::model::{contains_name, distinct_names, find_glyph, name_set, store_has, svs, Glyph};

verus! {

/// Whether a glyph is directly wanted: its primary codepoint, if any, lies
/// in the Basic Latin range, or its name is on the allow-list.
pub open spec fn directly_wanted(g: Glyph, allow: Seq<Seq<char>>) -> bool {
    (g.codepoints@.len() > 0 && g.codepoints@[0] <= 0x7f) || allow.contains(g.name@)
}

/// Evaluates the retention predicate on one glyph.
pub fn glyph_directly_wanted(g: &Glyph, allow: &Vec<String>) -> (r: bool)
    ensures
        r == directly_wanted(*g, svs(allow@)),
{
    if g.codepoints.len() > 0 && g.codepoints[0] <= 0x7f {
        true
    } else {
        contains_name(allow, &g.name)
    }
}

/// Some glyph of the store with this name is directly wanted.
pub open spec fn wanted_name(glyphs: Seq<Glyph>, allow: Seq<Seq<char>>, n: Seq<char>) -> bool {
    exists|i: int|
        0 <= i < glyphs.len() && directly_wanted(#[trigger] glyphs[i], allow) && glyphs[i].name@
            == n
}

/// Every directly wanted name of the store is in the set.
pub open spec fn includes_wanted(
    glyphs: Seq<Glyph>,
    allow: Seq<Seq<char>>,
    r: Set<Seq<char>>,
) -> bool {
    forall|i: int|
        0 <= i < glyphs.len() && directly_wanted(#[trigger] glyphs[i], allow) ==> r.contains(
            glyphs[i].name@,
        )
}

/// The set is closed under component references whose base exists in the
/// store: a retained glyph's bases that the store has are retained too.
pub open spec fn component_closed(glyphs: Seq<Glyph>, r: Set<Seq<char>>) -> bool {
    forall|i: int, j: int|
        0 <= i < glyphs.len() && r.contains(glyphs[i].name@) && 0 <= j
            < glyphs[i].components@.len() && store_has(
            glyphs,
            #[trigger] glyphs[i].components@[j]@,
        ) ==> r.contains(glyphs[i].components@[j]@)
}

/// The name belongs to every set that includes the directly wanted names
/// and is closed under component references.
pub open spec fn in_every_closed_superset(
    glyphs: Seq<Glyph>,
    allow: Seq<Seq<char>>,
    n: Seq<char>,
) -> bool {
    forall|r: Set<Seq<char>>|
        #[trigger] includes_wanted(glyphs, allow, r) && component_closed(glyphs, r) ==> r.contains(
            n,
        )
}

/// The retained set: the least superset of the directly wanted names that is
/// closed under component references into the store.
pub open spec fn retained_set(glyphs: Seq<Glyph>, allow: Seq<Seq<char>>) -> Set<Seq<char>> {
    Set::new(|n: Seq<char>| in_every_closed_superset(glyphs, allow, n))
}

/// Closure minimality: the retained set includes every directly wanted name,
/// is closed under component references, mentions only names the store has,
/// and is contained in every other set with the first two properties.
pub proof fn lemma_retained_set_least(glyphs: Seq<Glyph>, allow: Seq<Seq<char>>)
    ensures
        includes_wanted(glyphs, allow, retained_set(glyphs, allow)),
        component_closed(glyphs, retained_set(glyphs, allow)),
        forall|n: Seq<char>| #[trigger]
            retained_set(glyphs, allow).contains(n) ==> store_has(glyphs, n),
        forall|r2: Set<Seq<char>>|
            #[trigger] includes_wanted(glyphs, allow, r2) && component_closed(glyphs, r2)
                ==> retained_set(glyphs, allow).subset_of(r2),
{
    let rs = retained_set(glyphs, allow);
    assert forall|i: int|
        0 <= i < glyphs.len() && directly_wanted(#[trigger] glyphs[i], allow) implies rs.contains(
        glyphs[i].name@,
    ) by {
        assert forall|r2: Set<Seq<char>>|
            #[trigger] includes_wanted(glyphs, allow, r2) && component_closed(
                glyphs,
                r2,
            ) implies r2.contains(glyphs[i].name@) by {}
    }
    assert forall|i: int, j: int|
        0 <= i < glyphs.len() && rs.contains(glyphs[i].name@) && 0 <= j
            < glyphs[i].components@.len() && store_has(
            glyphs,
            #[trigger] glyphs[i].components@[j]@,
        ) implies rs.contains(glyphs[i].components@[j]@) by {
        assert forall|r2: Set<Seq<char>>|
            #[trigger] includes_wanted(glyphs, allow, r2) && component_closed(
                glyphs,
                r2,
            ) implies r2.contains(glyphs[i].components@[j]@) by {
            assert(r2.contains(glyphs[i].name@));
        }
    }
    // Only names the store has: the retained names cut down to the store's
    // names still include the wanted names and are still closed, so the
    // retained set is contained in that cut.
    let cut = Set::new(|n: Seq<char>| rs.contains(n) && store_has(glyphs, n));
    assert(includes_wanted(glyphs, allow, cut));
    assert forall|i: int, j: int|
        0 <= i < glyphs.len() && cut.contains(glyphs[i].name@) && 0 <= j
            < glyphs[i].components@.len() && store_has(
            glyphs,
            #[trigger] glyphs[i].components@[j]@,
        ) implies cut.contains(glyphs[i].components@[j]@) by {
        assert(rs.contains(glyphs[i].name@));
        assert(rs.contains(glyphs[i].components@[j]@));
    }
    assert forall|n: Seq<char>| #[trigger] rs.contains(n) implies store_has(glyphs, n) by {
        assert(cut.contains(n));
    }
}

/// The retained names, in store order.
pub open spec fn retained_names_in_order(glyphs: Seq<Glyph>, r: Set<Seq<char>>) -> Seq<Seq<char>>
    decreases glyphs.len(),
{
    if glyphs.len() == 0 {
        Seq::empty()
    } else {
        let rest = retained_names_in_order(glyphs.drop_first(), r);
        if r.contains(glyphs[0].name@) {
            seq![glyphs[0].name@] + rest
        } else {
            rest
        }
    }
}

proof fn lemma_retained_names_push(glyphs: Seq<Glyph>, g: Glyph, r: Set<Seq<char>>)
    ensures
        r.contains(g.name@) ==> retained_names_in_order(glyphs.push(g), r)
            == retained_names_in_order(glyphs, r).push(g.name@),
        !r.contains(g.name@) ==> retained_names_in_order(glyphs.push(g), r)
            == retained_names_in_order(glyphs, r),
    decreases glyphs.len(),
{
    let s1 = glyphs.push(g);
    if glyphs.len() == 0 {
        assert(s1[0] == g);
        assert(s1.drop_first() =~= Seq::<Glyph>::empty());
        assert(glyphs =~= Seq::<Glyph>::empty());
        assert(retained_names_in_order(Seq::<Glyph>::empty(), r) =~= Seq::<Seq<char>>::empty());
        if r.contains(g.name@) {
            assert(retained_names_in_order(s1, r) =~= retained_names_in_order(
                glyphs,
                r,
            ).push(g.name@));
        } else {
            assert(retained_names_in_order(s1, r) =~= retained_names_in_order(glyphs, r));
        }
    } else {
        assert(s1[0] == glyphs[0]);
        assert(s1.drop_first() =~= glyphs.drop_first().push(g));
        lemma_retained_names_push(glyphs.drop_first(), g, r);
        if r.contains(g.name@) {
            assert(retained_names_in_order(s1, r) =~= retained_names_in_order(
                glyphs,
                r,
            ).push(g.name@));
        } else {
            assert(retained_names_in_order(s1, r) =~= retained_names_in_order(glyphs, r));
        }
    }
}

/// How many entries of the sequence are true.
spec fn count_true(m: Seq<bool>) -> int
    decreases m.len(),
{
    if m.len() == 0 {
        0
    } else {
        count_true(m.drop_last()) + if m.last() {
            1int
        } else {
            0int
        }
    }
}

proof fn lemma_count_true_all_false(m: Seq<bool>)
    requires
        forall|k: int| 0 <= k < m.len() ==> !(#[trigger] m[k]),
    ensures
        count_true(m) == 0,
    decreases m.len(),
{
    if m.len() > 0 {
        lemma_count_true_all_false(m.drop_last());
    }
}

proof fn lemma_count_true_le(m: Seq<bool>)
    ensures
        0 <= count_true(m) <= m.len(),
    decreases m.len(),
{
    if m.len() > 0 {
        lemma_count_true_le(m.drop_last());
    }
}

proof fn lemma_count_true_below(m: Seq<bool>, i: int)
    requires
        0 <= i < m.len(),
        !m[i],
    ensures
        count_true(m) < m.len(),
    decreases m.len(),
{
    lemma_count_true_le(m.drop_last());
    if i < m.len() - 1 {
        lemma_count_true_below(m.drop_last(), i);
    }
}

proof fn lemma_count_true_update(m: Seq<bool>, i: int)
    requires
        0 <= i < m.len(),
        !m[i],
    ensures
        count_true(m.update(i, true)) == count_true(m) + 1,
    decreases m.len(),
{
    let u = m.update(i, true);
    if i == m.len() - 1 {
        assert(u.drop_last() =~= m.drop_last());
    } else {
        assert(u.drop_last() =~= m.drop_last().update(i, true));
        lemma_count_true_update(m.drop_last(), i);
        assert(u.last() == m.last());
    }
}

/// Some marked glyph of the store bears this name.
spec fn marked_name(glyphs: Seq<Glyph>, m: Seq<bool>, n: Seq<char>) -> bool {
    exists|k: int| 0 <= k < glyphs.len() && m[k] && glyphs[k].name@ == n
}

/// Computes the retained names: the directly wanted names, closed
/// transitively under component references whose base the store has. The
/// result lists each retained name once, in store order.
pub fn compute_retained(glyphs: &Vec<Glyph>, allow: &Vec<String>) -> (r: Vec<String>)
    requires
        distinct_names(glyphs@),
    ensures
        svs(r@).no_duplicates(),
        forall|k: int| 0 <= k < r@.len() ==> store_has(glyphs@, #[trigger] r@[k]@),
        name_set(svs(r@)) == retained_set(glyphs@, svs(allow@)),
        svs(r@) == retained_names_in_order(glyphs@, retained_set(glyphs@, svs(allow@))),
{
    let ghost gs = glyphs@;
    let ghost al = svs(allow@);
    let n = glyphs.len();

    let mut marked: Vec<bool> = Vec::new();
    while marked.len() < n
        invariant
            marked@.len() <= n,
            forall|k: int| 0 <= k < marked@.len() ==> !(#[trigger] marked@[k]),
        decreases n - marked@.len(),
    {
        marked.push(false);
    }

    let mut queue: Vec<usize> = Vec::new();
    let mut count: usize = 0;
    proof {
        lemma_count_true_all_false(marked@);
    }

    // Seed the marks with the directly wanted glyphs.
    let mut i: usize = 0;
    while i < n
        invariant
            gs == glyphs@,
            al == svs(allow@),
            n == gs.len(),
            i <= n,
            marked@.len() == n,
            count == count_true(marked@),
            count <= n,
            forall|k: int| i <= k < n ==> !(#[trigger] marked@[k]),
            forall|q: int|
                0 <= q < queue@.len() ==> (#[trigger] queue@[q]) < n && marked@[queue@[q] as int],
            queue@.no_duplicates(),
            forall|k: int|
                0 <= k < n && #[trigger] marked@[k] ==> queue@.contains(k as usize),
            forall|k: int|
                0 <= k < n && #[trigger] marked@[k] ==> in_every_closed_superset(
                    gs,
                    al,
                    gs[k].name@,
                ),
            forall|k: int| 0 <= k < i && directly_wanted(#[trigger] gs[k], al) ==> marked@[k],
        decreases n - i,
    {
        if glyph_directly_wanted(&glyphs[i], allow) {
            proof {
                lemma_count_true_below(marked@, i as int);
                lemma_count_true_update(marked@, i as int);
            }
            let ghost marked0 = marked@;
            let ghost queue0 = queue@;
            marked.set(i, true);
            count = count + 1;
            queue.push(i);
            proof {
                assert forall|r2: Set<Seq<char>>|
                    #[trigger] includes_wanted(gs, al, r2) && component_closed(
                        gs,
                        r2,
                    ) implies r2.contains(gs[i as int].name@) by {}
                assert forall|k: int|
                    0 <= k < n && #[trigger] marked@[k] implies queue@.contains(k as usize) by {
                    if k != i {
                        assert(marked0[k]);
                        let q = choose|q: int| 0 <= q < queue0.len() && queue0[q] == k as usize;
                        assert(queue@[q] == k as usize);
                    } else {
                        assert(queue@[queue@.len() - 1] == i);
                    }
                }
                assert(queue@.no_duplicates()) by {
                    assert(forall|q: int|
                        0 <= q < queue0.len() ==> (#[trigger] queue0[q]) != i as usize);
                }
            }
        }
        i += 1;
    }

    // Follow component references until no new glyph is marked.
    while queue.len() > 0
        invariant
            gs == glyphs@,
            al == svs(allow@),
            n == gs.len(),
            marked@.len() == n,
            count == count_true(marked@),
            count <= n,
            forall|q: int|
                0 <= q < queue@.len() ==> (#[trigger] queue@[q]) < n && marked@[queue@[q] as int],
            queue@.no_duplicates(),
            forall|k: int|
                0 <= k < n && #[trigger] marked@[k] ==> in_every_closed_superset(
                    gs,
                    al,
                    gs[k].name@,
                ),
            forall|k: int| 0 <= k < n && directly_wanted(#[trigger] gs[k], al) ==> marked@[k],
            forall|k: int, j: int|
                0 <= k < n && marked@[k] && !queue@.contains(k as usize) && 0 <= j
                    < gs[k].components@.len() && store_has(gs, #[trigger] gs[k].components@[j]@)
                    ==> marked_name(gs, marked@, gs[k].components@[j]@),
        decreases n - count, queue@.len(),
    {
        let ghost count0 = count as int;
        let ghost qlen0 = queue@.len() as int;
        let ghost queuepre = queue@;
        let gi_opt = queue.pop();
        let gi = gi_opt.unwrap();
        proof {
            assert(queue@ =~= queuepre.subrange(0, queuepre.len() - 1));
            assert(queuepre[queuepre.len() - 1] == gi);
            assert(queuepre.contains(gi));
            assert(queue@.no_duplicates()) by {
                assert(forall|q: int|
                    0 <= q < queue@.len() ==> #[trigger] queue@[q] == queuepre[q]);
            }
            assert(!queue@.contains(gi)) by {
                if queue@.contains(gi) {
                    let q = choose|q: int| 0 <= q < queue@.len() && queue@[q] == gi;
                    assert(queuepre[q] == gi);
                    assert(queuepre[queuepre.len() - 1] == gi);
                }
            }
            assert forall|k: int, j2: int|
                0 <= k < n && marked@[k] && !queue@.contains(k as usize) && k != gi as int && 0
                    <= j2 < gs[k].components@.len() && store_has(
                    gs,
                    #[trigger] gs[k].components@[j2]@,
                ) implies marked_name(gs, marked@, gs[k].components@[j2]@) by {
                assert(!queuepre.contains(k as usize)) by {
                    if queuepre.contains(k as usize) {
                        let q = choose|q: int|
                            0 <= q < queuepre.len() && queuepre[q] == k as usize;
                        if q < queuepre.len() - 1 {
                            assert(queue@[q] == k as usize);
                            assert(queue@.contains(k as usize));
                        } else {
                            assert(k as usize == gi);
                        }
                    }
                }
            }
        }
        let ncomp = glyphs[gi].components.len();
        let mut j: usize = 0;
        while j < ncomp
            invariant
                gs == glyphs@,
                al == svs(allow@),
                n == gs.len(),
                marked@.len() == n,
                count == count_true(marked@),
                count <= n,
                (gi as int) < n,
                marked@[gi as int],
                !queue@.contains(gi),
                ncomp == gs[gi as int].components@.len(),
                j <= ncomp,
                count0 <= count,
                queue@.len() + count0 <= qlen0 - 1 + count,
                forall|q: int|
                    0 <= q < queue@.len() ==> (#[trigger] queue@[q]) < n
                        && marked@[queue@[q] as int],
                queue@.no_duplicates(),
                forall|k: int|
                    0 <= k < n && #[trigger] marked@[k] ==> in_every_closed_superset(
                        gs,
                        al,
                        gs[k].name@,
                    ),
                forall|k: int| 0 <= k < n && directly_wanted(#[trigger] gs[k], al) ==> marked@[k],
                forall|k: int, j2: int|
                    0 <= k < n && marked@[k] && !queue@.contains(k as usize) && k != gi as int && 0
                        <= j2 < gs[k].components@.len() && store_has(
                        gs,
                        #[trigger] gs[k].components@[j2]@,
                    ) ==> marked_name(gs, marked@, gs[k].components@[j2]@),
                forall|j2: int|
                    0 <= j2 < j && store_has(gs, #[trigger] gs[gi as int].components@[j2]@)
                        ==> marked_name(gs, marked@, gs[gi as int].components@[j2]@),
            decreases ncomp - j,
        {
            let base = &glyphs[gi].components[j];
            match find_glyph(glyphs, base) {
                Some(k) => {
                    if !marked[k] {
                        proof {
                            lemma_count_true_below(marked@, k as int);
                            lemma_count_true_update(marked@, k as int);
                        }
                        let ghost marked0 = marked@;
                        let ghost queue0 = queue@;
                        marked.set(k, true);
                        count = count + 1;
                        queue.push(k);
                        proof {
                            assert(store_has(gs, base@));
                            assert forall|r2: Set<Seq<char>>|
                                #[trigger] includes_wanted(gs, al, r2) && component_closed(
                                    gs,
                                    r2,
                                ) implies r2.contains(gs[k as int].name@) by {
                                assert(r2.contains(gs[gi as int].name@));
                                assert(r2.contains(gs[gi as int].components@[j as int]@));
                            }
                            assert(queue@ =~= queue0.push(k));
                            assert(queue@.no_duplicates()) by {
                                assert(forall|q: int|
                                    0 <= q < queue0.len() ==> (#[trigger] queue0[q]) != k as usize);
                                assert(forall|q: int|
                                    0 <= q < queue0.len() ==> #[trigger] queue@[q] == queue0[q]);
                                assert(queue@[queue@.len() - 1] == k);
                            }
                            assert(k as usize != gi) by {
                                assert(marked0[gi as int]);
                                assert(!marked0[k as int]);
                            }
                            assert(!queue@.contains(gi)) by {
                                if queue@.contains(gi) {
                                    let q = choose|q: int|
                                        0 <= q < queue@.len() && queue@[q] == gi;
                                    if q < queue0.len() {
                                        assert(queue0[q] == gi);
                                        assert(queue0.contains(gi));
                                    } else {
                                        assert(queue@[q] == k);
                                    }
                                }
                            }
                            assert forall|k2: int, j2: int|
                                0 <= k2 < n && marked@[k2] && !queue@.contains(k2 as usize) && k2
                                    != gi as int && 0 <= j2 < gs[k2].components@.len() && store_has(
                                    gs,
                                    #[trigger] gs[k2].components@[j2]@,
                                ) implies marked_name(gs, marked@, gs[k2].components@[j2]@) by {
                                assert(k2 != k as int) by {
                                    assert(queue@[queue@.len() - 1] == k);
                                    assert(queue@.contains(k as usize));
                                }
                                assert(!queue0.contains(k2 as usize)) by {
                                    if queue0.contains(k2 as usize) {
                                        let q = choose|q: int|
                                            0 <= q < queue0.len() && queue0[q] == k2 as usize;
                                        assert(queue@[q] == k2 as usize);
                                        assert(queue@.contains(k2 as usize));
                                    }
                                }
                                assert(marked0[k2]);
                                assert(marked_name(gs, marked0, gs[k2].components@[j2]@));
                                let w = choose|w: int|
                                    0 <= w < gs.len() && marked0[w] && gs[w].name@
                                        == gs[k2].components@[j2]@;
                                assert(marked@[w]);
                            }
                            assert forall|j2: int|
                                0 <= j2 < j + 1 && store_has(
                                    gs,
                                    #[trigger] gs[gi as int].components@[j2]@,
                                ) implies marked_name(gs, marked@, gs[gi as int].components@[j2]@) by {
                                if j2 < j {
                                    assert(marked_name(gs, marked0, gs[gi as int].components@[j2]@));
                                    let w = choose|w: int|
                                        0 <= w < gs.len() && marked0[w] && gs[w].name@
                                            == gs[gi as int].components@[j2]@;
                                    assert(marked@[w]);
                                } else {
                                    assert(marked@[k as int]);
                                    assert(gs[k as int].name@ == gs[gi as int].components@[j2]@);
                                }
                            }
                        }
                    } else {
                        proof {
                            assert(marked_name(gs, marked@, gs[gi as int].components@[j as int]@))
                                by {
                                assert(marked@[k as int] && gs[k as int].name@ == base@);
                            }
                        }
                    }
                },
                None => {
                    proof {
                        assert(!store_has(gs, gs[gi as int].components@[j as int]@));
                    }
                },
            }
            j += 1;
        }
    }

    // Every mark is now settled: the marked names include the wanted names,
    // are closed under component references, and sit in every such set, so
    // they are exactly the retained set.
    proof {
        let mset = Set::new(|nm: Seq<char>| marked_name(gs, marked@, nm));
        assert forall|i2: int|
            0 <= i2 < gs.len() && directly_wanted(#[trigger] gs[i2], al) implies mset.contains(
            gs[i2].name@,
        ) by {
            assert(marked@[i2]);
        }
        assert(includes_wanted(gs, al, mset));
        assert forall|i2: int, j2: int|
            0 <= i2 < gs.len() && mset.contains(gs[i2].name@) && 0 <= j2
                < gs[i2].components@.len() && store_has(
                gs,
                #[trigger] gs[i2].components@[j2]@,
            ) implies mset.contains(gs[i2].components@[j2]@) by {
            let t = choose|t: int|
                0 <= t < gs.len() && #[trigger] marked@[t] && gs[t].name@ == gs[i2].name@;
            assert(t == i2);
            assert(marked@[i2]);
            assert(marked_name(gs, marked@, gs[i2].components@[j2]@));
        }
        assert(component_closed(gs, mset));
        assert forall|nm: Seq<char>| #[trigger]
            marked_name(gs, marked@, nm) implies retained_set(gs, al).contains(nm) by {
            let t = choose|t: int|
                0 <= t < gs.len() && #[trigger] marked@[t] && gs[t].name@ == nm;
            assert(in_every_closed_superset(gs, al, gs[t].name@));
        }
        assert forall|nm: Seq<char>| #[trigger]
            retained_set(gs, al).contains(nm) implies marked_name(gs, marked@, nm) by {
            assert(in_every_closed_superset(gs, al, nm));
            assert(includes_wanted(gs, al, mset) && component_closed(gs, mset));
            assert(mset.contains(nm));
        }
    }

    // Collect the marked names in store order.
    let mut out: Vec<String> = Vec::new();
    let mut k: usize = 0;
    proof {
        assert(gs.subrange(0, 0) =~= Seq::<Glyph>::empty());
        assert(svs(out@) =~= retained_names_in_order(gs.subrange(0, 0), retained_set(gs, al)));
    }
    while k < n
        invariant
            gs == glyphs@,
            al == svs(allow@),
            n == gs.len(),
            distinct_names(gs),
            marked@.len() == n,
            k <= n,
            svs(out@).no_duplicates(),
            forall|nm: Seq<char>|
                #[trigger] svs(out@).contains(nm) <==> exists|t: int|
                    0 <= t < k && #[trigger] marked@[t] && gs[t].name@ == nm,
            forall|nm: Seq<char>|
                #![trigger retained_set(gs, al).contains(nm)]
                #![trigger marked_name(gs, marked@, nm)]
                retained_set(gs, al).contains(nm) <==> marked_name(gs, marked@, nm),
            svs(out@) == retained_names_in_order(gs.subrange(0, k as int), retained_set(gs, al)),
        decreases n - k,
    {
        if marked[k] {
            let ghost out0 = out@;
            out.push(glyphs[k].name.clone());
            proof {
                assert(svs(out@) =~= svs(out0).push(gs[k as int].name@));
                assert(!svs(out0).contains(gs[k as int].name@)) by {
                    if svs(out0).contains(gs[k as int].name@) {
                        let t = choose|t: int|
                            0 <= t < k && #[trigger] marked@[t] && gs[t].name@
                                == gs[k as int].name@;
                        assert(gs[t].name@ != gs[k as int].name@);
                    }
                }
                assert(svs(out@).no_duplicates()) by {
                    assert(forall|q: int|
                        0 <= q < svs(out0).len() ==> #[trigger] svs(out@)[q] == svs(out0)[q]);
                    assert(svs(out@)[svs(out@).len() - 1] == gs[k as int].name@);
                }
                assert forall|nm: Seq<char>| #[trigger]
                    svs(out@).contains(nm) implies exists|t: int|
                    0 <= t < k + 1 && #[trigger] marked@[t] && gs[t].name@ == nm by {
                    if svs(out0).contains(nm) {
                        let t = choose|t: int|
                            0 <= t < k && #[trigger] marked@[t] && gs[t].name@ == nm;
                        assert(0 <= t < k + 1 && marked@[t] && gs[t].name@ == nm);
                    } else {
                        assert(nm == gs[k as int].name@);
                        assert(0 <= k < k + 1 && marked@[k as int] && gs[k as int].name@ == nm);
                    }
                }
                assert forall|nm: Seq<char>|
                    (exists|t: int|
                        0 <= t < k + 1 && #[trigger] marked@[t] && gs[t].name@
                            == nm) implies #[trigger] svs(out@).contains(nm) by {
                    let t = choose|t: int|
                        0 <= t < k + 1 && #[trigger] marked@[t] && gs[t].name@ == nm;
                    if t < k {
                        assert(svs(out0).contains(nm));
                        let q = choose|q: int| 0 <= q < svs(out0).len() && svs(out0)[q] == nm;
                        assert(svs(out@)[q] == nm);
                    } else {
                        assert(svs(out@)[svs(out@).len() - 1] == nm);
                    }
                }
                assert(gs.subrange(0, k as int + 1) =~= gs.subrange(0, k as int).push(
                    gs[k as int],
                ));
                lemma_retained_names_push(gs.subrange(0, k as int), gs[k as int], retained_set(
                    gs,
                    al,
                ));
                assert(retained_set(gs, al).contains(gs[k as int].name@)) by {
                    assert(marked@[k as int] && gs[k as int].name@ == gs[k as int].name@);
                    assert(marked_name(gs, marked@, gs[k as int].name@));
                }
                assert(svs(out@) == retained_names_in_order(
                    gs.subrange(0, k as int + 1),
                    retained_set(gs, al),
                ));
            }
        } else {
            proof {
                assert forall|nm: Seq<char>|
                    (exists|t: int|
                        0 <= t < k + 1 && #[trigger] marked@[t] && gs[t].name@
                            == nm) implies #[trigger] svs(out@).contains(nm) by {
                    let t = choose|t: int|
                        0 <= t < k + 1 && #[trigger] marked@[t] && gs[t].name@ == nm;
                    assert(t < k);
                }
                assert(gs.subrange(0, k as int + 1) =~= gs.subrange(0, k as int).push(
                    gs[k as int],
                ));
                lemma_retained_names_push(gs.subrange(0, k as int), gs[k as int], retained_set(
                    gs,
                    al,
                ));
                assert(!retained_set(gs, al).contains(gs[k as int].name@)) by {
                    if retained_set(gs, al).contains(gs[k as int].name@) {
                        assert(marked_name(gs, marked@, gs[k as int].name@));
                        let t = choose|t: int|
                            0 <= t < gs.len() && #[trigger] marked@[t] && gs[t].name@
                                == gs[k as int].name@;
                        assert(t == k as int);
                    }
                }
                assert(svs(out@) == retained_names_in_order(
                    gs.subrange(0, k as int + 1),
                    retained_set(gs, al),
                ));
            }
        }
        k += 1;
    }

    proof {
        assert(gs.subrange(0, n as int) =~= gs);
        let s = name_set(svs(out@));
        assert forall|i2: int|
            0 <= i2 < gs.len() && directly_wanted(#[trigger] gs[i2], al) implies s.contains(
            gs[i2].name@,
        ) by {
            assert(marked@[i2]);
        }
        assert(includes_wanted(gs, al, s));
        assert forall|i2: int, j2: int|
            0 <= i2 < gs.len() && s.contains(gs[i2].name@) && 0 <= j2 < gs[i2].components@.len()
                && store_has(gs, #[trigger] gs[i2].components@[j2]@) implies s.contains(
            gs[i2].components@[j2]@,
        ) by {
            let t = choose|t: int| 0 <= t < n && #[trigger] marked@[t] && gs[t].name@ == gs[i2].name@;
            assert(t == i2);
            assert(marked@[i2]);
            assert(marked_name(gs, marked@, gs[i2].components@[j2]@));
        }
        assert(component_closed(gs, s));
        assert forall|nm: Seq<char>| #[trigger] s.contains(nm) implies retained_set(
            gs,
            al,
        ).contains(nm) by {
            let t = choose|t: int| 0 <= t < n && #[trigger] marked@[t] && gs[t].name@ == nm;
            assert(in_every_closed_superset(gs, al, gs[t].name@));
        }
        assert forall|nm: Seq<char>| #[trigger]
            retained_set(gs, al).contains(nm) implies s.contains(nm) by {
            assert(in_every_closed_superset(gs, al, nm));
            assert(includes_wanted(gs, al, s) && component_closed(gs, s));
        }
        assert(name_set(svs(out@)) =~= retained_set(gs, al));
        assert forall|k2: int| 0 <= k2 < out@.len() implies store_has(
            gs,
            #[trigger] out@[k2]@,
        ) by {
            assert(svs(out@)[k2] == out@[k2]@);
            assert(svs(out@).contains(out@[k2]@));
            let t = choose|t: int| 0 <= t < n && #[trigger] marked@[t] && gs[t].name@ == out@[k2]@;
        }
    }
    out
}

} // verus!
