//! The renderer's structural laws: ignored names never appear, each level is
//! emitted in strictly ascending name order, exactly one entry per level
//! carries the closing glyph, and rendering is deterministic.

use vstd::prelude::*;

use crate::order::{
    lemma_le_ne_implies_lt, lemma_lex_antisym, lemma_lex_total, lemma_lex_trans, lex_le, lex_lt,
};
use crate::render::{
    bar_pad, filter_level, insert_sorted, items_from_sorted, keep, lemma_filter_contains,
    lemma_insert_contains, lemma_level_contains, lemma_level_kept, lemma_sort_contains, level,
    render_items, render_lines, sort_level, space_pad, RItem,
};
use crate::tree::{depth, lemma_depth_elem, lemma_depth_subset, Entry};

verus! {

/// The entries of a level are ordered by display name.
pub open spec fn sorted_names(s: Seq<Entry>) -> bool {
    forall|i: int, j: int|
        0 <= i < j < s.len() ==> lex_le(#[trigger] s[i].name@, #[trigger] s[j].name@)
}

/// The entries of a level have pairwise distinct display names, as names
/// within one directory always are.
pub open spec fn distinct_names(s: Seq<Entry>) -> bool {
    forall|i: int, j: int|
        0 <= i < j < s.len() ==> (#[trigger] s[i].name@) != (#[trigger] s[j].name@)
}

proof fn lemma_sorted_drop_first(s: Seq<Entry>)
    requires
        s.len() > 0,
        sorted_names(s),
    ensures
        sorted_names(s.drop_first()),
{
    assert forall|i: int, j: int| 0 <= i < j < s.drop_first().len() implies lex_le(
        #[trigger] s.drop_first()[i].name@,
        #[trigger] s.drop_first()[j].name@,
    ) by {
        assert(s.drop_first()[i] == s[i + 1]);
        assert(s.drop_first()[j] == s[j + 1]);
    }
}

proof fn lemma_insert_keeps_sorted(s: Seq<Entry>, e: Entry)
    requires
        sorted_names(s),
    ensures
        sorted_names(insert_sorted(s, e)),
    decreases s.len(),
{
    let r = insert_sorted(s, e);
    if s.len() == 0 {
    } else if lex_le(e.name@, s[0].name@) {
        assert forall|i: int, j: int| 0 <= i < j < r.len() implies lex_le(
            #[trigger] r[i].name@,
            #[trigger] r[j].name@,
        ) by {
            assert(r[j] == s[j - 1]);
            if i == 0 {
                if j > 1 {
                    lemma_lex_trans(e.name@, s[0].name@, s[j - 1].name@);
                }
            } else {
                assert(r[i] == s[i - 1]);
            }
        }
    } else {
        lemma_lex_total(e.name@, s[0].name@);
        lemma_sorted_drop_first(s);
        lemma_insert_keeps_sorted(s.drop_first(), e);
        lemma_insert_contains(s.drop_first(), e);
        let rr = insert_sorted(s.drop_first(), e);
        assert forall|i: int, j: int| 0 <= i < j < r.len() implies lex_le(
            #[trigger] r[i].name@,
            #[trigger] r[j].name@,
        ) by {
            assert(r[j] == rr[j - 1]);
            if i == 0 {
                assert(r[0] == s[0]);
                if rr[j - 1] == e {
                } else {
                    let k = choose|k: int|
                        0 <= k < s.drop_first().len() && s.drop_first()[k] == rr[j - 1];
                    assert(s[k + 1] == rr[j - 1]);
                }
            } else {
                assert(r[i] == rr[i - 1]);
            }
        }
    }
}

proof fn lemma_sort_sorted(s: Seq<Entry>)
    ensures
        sorted_names(sort_level(s)),
    decreases s.len(),
{
    if s.len() > 0 {
        lemma_sort_sorted(s.drop_last());
        lemma_insert_keeps_sorted(sort_level(s.drop_last()), s.last());
    }
}

proof fn lemma_distinct_drop(s: Seq<Entry>)
    requires
        s.len() > 0,
        distinct_names(s),
    ensures
        distinct_names(s.drop_first()),
        distinct_names(s.drop_last()),
{
    assert forall|i: int, j: int| 0 <= i < j < s.drop_first().len() implies (
    #[trigger] s.drop_first()[i].name@) != (#[trigger] s.drop_first()[j].name@) by {
        assert(s.drop_first()[i] == s[i + 1]);
        assert(s.drop_first()[j] == s[j + 1]);
    }
    assert forall|i: int, j: int| 0 <= i < j < s.drop_last().len() implies (
    #[trigger] s.drop_last()[i].name@) != (#[trigger] s.drop_last()[j].name@) by {
        assert(s.drop_last()[i] == s[i]);
        assert(s.drop_last()[j] == s[j]);
    }
}

proof fn lemma_insert_keeps_distinct(s: Seq<Entry>, e: Entry)
    requires
        distinct_names(s),
        forall|i: int| 0 <= i < s.len() ==> (#[trigger] s[i].name@) != e.name@,
    ensures
        distinct_names(insert_sorted(s, e)),
    decreases s.len(),
{
    let r = insert_sorted(s, e);
    if s.len() == 0 {
    } else if lex_le(e.name@, s[0].name@) {
        assert forall|i: int, j: int| 0 <= i < j < r.len() implies (#[trigger] r[i].name@) != (
        #[trigger] r[j].name@) by {
            assert(r[j] == s[j - 1]);
            if i > 0 {
                assert(r[i] == s[i - 1]);
                assert(s[i - 1].name@ != s[j - 1].name@);
            } else {
                assert(r[0] == e);
                assert(s[j - 1].name@ != e.name@);
            }
        }
    } else {
        lemma_distinct_drop(s);
        assert forall|i: int| 0 <= i < s.drop_first().len() implies (
        #[trigger] s.drop_first()[i].name@) != e.name@ by {
            assert(s.drop_first()[i] == s[i + 1]);
        }
        lemma_insert_keeps_distinct(s.drop_first(), e);
        lemma_insert_contains(s.drop_first(), e);
        let rr = insert_sorted(s.drop_first(), e);
        assert forall|i: int, j: int| 0 <= i < j < r.len() implies (#[trigger] r[i].name@) != (
        #[trigger] r[j].name@) by {
            assert(r[j] == rr[j - 1]);
            if i == 0 {
                assert(r[0] == s[0]);
                if rr[j - 1] == e {
                } else {
                    let k = choose|k: int|
                        0 <= k < s.drop_first().len() && s.drop_first()[k] == rr[j - 1];
                    assert(s[k + 1] == rr[j - 1]);
                }
            } else {
                assert(r[i] == rr[i - 1]);
            }
        }
    }
}

proof fn lemma_filter_keeps_distinct(s: Seq<Entry>, ig: Seq<Seq<char>>)
    requires
        distinct_names(s),
    ensures
        distinct_names(filter_level(s, ig)),
    decreases s.len(),
{
    if s.len() > 0 {
        lemma_distinct_drop(s);
        lemma_filter_keeps_distinct(s.drop_last(), ig);
        lemma_filter_contains(s.drop_last(), ig);
        let rest = filter_level(s.drop_last(), ig);
        let f = filter_level(s, ig);
        if keep(ig, s.last().name@) {
            assert forall|i: int, j: int| 0 <= i < j < f.len() implies (#[trigger] f[i].name@)
                != (#[trigger] f[j].name@) by {
                if j < rest.len() {
                    assert(f[i] == rest[i]);
                    assert(f[j] == rest[j]);
                    assert(rest[i].name@ != rest[j].name@);
                } else {
                    assert(f[j] == s.last());
                    assert(f[i] == rest[i]);
                    let k = choose|k: int|
                        0 <= k < s.drop_last().len() && s.drop_last()[k] == rest[i];
                    assert(s[k] == rest[i]);
                    assert(s[s.len() - 1] == s.last());
                    assert(s[k].name@ != s[s.len() - 1].name@);
                }
            }
        }
    }
}

proof fn lemma_sort_keeps_distinct(s: Seq<Entry>)
    requires
        distinct_names(s),
    ensures
        distinct_names(sort_level(s)),
    decreases s.len(),
{
    if s.len() > 0 {
        lemma_distinct_drop(s);
        lemma_sort_keeps_distinct(s.drop_last());
        lemma_sort_contains(s.drop_last());
        let sd = sort_level(s.drop_last());
        assert forall|i: int| 0 <= i < sd.len() implies (#[trigger] sd[i].name@)
            != s.last().name@ by {
            let k = choose|k: int| 0 <= k < s.drop_last().len() && s.drop_last()[k] == sd[i];
            assert(s[k] == sd[i]);
            assert(s[s.len() - 1] == s.last());
        }
        lemma_insert_keeps_distinct(sd, s.last());
    }
}

/// Law: at every directory level, the visible entries are ordered strictly
/// ascending by display name — whatever order they were listed in.
pub proof fn lemma_level_strictly_sorted(entries: Seq<Entry>, ig: Seq<Seq<char>>)
    requires
        distinct_names(entries),
    ensures
        sorted_names(level(entries, ig)),
        distinct_names(level(entries, ig)),
        forall|k: int|
            0 <= k < level(entries, ig).len() - 1 ==> lex_lt(
                #[trigger] level(entries, ig)[k].name@,
                level(entries, ig)[k + 1].name@,
            ),
{
    lemma_sort_sorted(filter_level(entries, ig));
    lemma_filter_keeps_distinct(entries, ig);
    lemma_sort_keeps_distinct(filter_level(entries, ig));
    let lvl = level(entries, ig);
    assert forall|k: int| 0 <= k < lvl.len() - 1 implies lex_lt(
        #[trigger] lvl[k].name@,
        lvl[k + 1].name@,
    ) by {
        lemma_le_ne_implies_lt(lvl[k].name@, lvl[k + 1].name@);
    }
}

/// The items of one level of the rendered output: those whose indentation
/// prefix is exactly the level's own, in emission order.
pub open spec fn at_level(items: Seq<RItem>, prefix: Seq<char>) -> Seq<RItem>
    decreases items.len(),
{
    if items.len() == 0 {
        Seq::empty()
    } else if items[0].prefix == prefix {
        seq![items[0]] + at_level(items.drop_first(), prefix)
    } else {
        at_level(items.drop_first(), prefix)
    }
}

proof fn lemma_at_level_add(a: Seq<RItem>, b: Seq<RItem>, p: Seq<char>)
    ensures
        at_level(a + b, p) == at_level(a, p) + at_level(b, p),
    decreases a.len(),
{
    if a.len() == 0 {
        assert(a + b =~= b);
        assert(at_level(a, p) + at_level(b, p) =~= at_level(b, p));
    } else {
        assert((a + b).len() > 0);
        assert((a + b)[0] == a[0]);
        assert((a + b).drop_first() =~= a.drop_first() + b);
        lemma_at_level_add(a.drop_first(), b, p);
        if a[0].prefix == p {
            assert(seq![a[0]] + (at_level(a.drop_first(), p) + at_level(b, p)) =~= (seq![a[0]]
                + at_level(a.drop_first(), p)) + at_level(b, p));
        }
    }
}

proof fn lemma_at_level_empty(items: Seq<RItem>, p: Seq<char>)
    requires
        forall|i: int| 0 <= i < items.len() ==> (#[trigger] items[i]).prefix != p,
    ensures
        at_level(items, p) == Seq::<RItem>::empty(),
    decreases items.len(),
{
    if items.len() > 0 {
        assert forall|i: int| 0 <= i < items.drop_first().len() implies (
        #[trigger] items.drop_first()[i]).prefix != p by {
            assert(items.drop_first()[i] == items[i + 1]);
        }
        lemma_at_level_empty(items.drop_first(), p);
    }
}

proof fn lemma_items_prefix_len(lvl: Seq<Entry>, prefix: Seq<char>, ig: Seq<Seq<char>>)
    ensures
        forall|i: int|
            0 <= i < items_from_sorted(lvl, prefix, ig).len() ==> (#[trigger] items_from_sorted(
                lvl,
                prefix,
                ig,
            )[i]).prefix.len() >= prefix.len(),
    decreases depth(lvl), lvl.len(),
{
    if lvl.len() > 0 {
        let e = lvl[0];
        let last = lvl.len() == 1;
        let pad = if last {
            space_pad()
        } else {
            bar_pad()
        };
        let it0 = (RItem { prefix, is_last: last, name: e.name@ });
        lemma_depth_elem(lvl, 0);
        lemma_level_contains(e.children@, ig);
        lemma_depth_subset(e.children@, level(e.children@, ig));
        let sub = if e.is_dir {
            items_from_sorted(level(e.children@, ig), prefix + pad, ig)
        } else {
            Seq::<RItem>::empty()
        };
        let rest = items_from_sorted(lvl.drop_first(), prefix, ig);
        if e.is_dir {
            lemma_items_prefix_len(level(e.children@, ig), prefix + pad, ig);
        }
        lemma_items_prefix_len(lvl.drop_first(), prefix, ig);
        let items = items_from_sorted(lvl, prefix, ig);
        assert(items == seq![it0] + sub + rest);
        assert forall|i: int| 0 <= i < items.len() implies (#[trigger] items[i]).prefix.len()
            >= prefix.len() by {
            if i == 0 {
                assert(items[0] == it0);
            } else if i < 1 + sub.len() {
                assert(items[i] == sub[i - 1]);
            } else {
                assert(items[i] == rest[i - 1 - sub.len()]);
            }
        }
    }
}

/// Law: one level of the output, extracted from the rendered items by its
/// indentation prefix, lists exactly the level's visible entries, in their
/// sorted order, and marks exactly its final entry as last — the entry that
/// takes the `└── ` glyph; every other entry of the level takes `├── `.
pub proof fn lemma_at_level_items(lvl: Seq<Entry>, prefix: Seq<char>, ig: Seq<Seq<char>>)
    ensures
        ({
            let its = at_level(items_from_sorted(lvl, prefix, ig), prefix);
            &&& its.len() == lvl.len()
            &&& forall|k: int|
                0 <= k < lvl.len() ==> (#[trigger] its[k]).name == lvl[k].name@ && its[k].prefix
                    == prefix && (its[k].is_last <==> k == lvl.len() - 1)
        }),
    decreases depth(lvl), lvl.len(),
{
    reveal_strlit("    ");
    reveal_strlit("\u{2502}   ");
    if lvl.len() > 0 {
        let e = lvl[0];
        let last = lvl.len() == 1;
        let pad = if last {
            space_pad()
        } else {
            bar_pad()
        };
        let it0 = (RItem { prefix, is_last: last, name: e.name@ });
        lemma_depth_elem(lvl, 0);
        lemma_level_contains(e.children@, ig);
        lemma_depth_subset(e.children@, level(e.children@, ig));
        let sub = if e.is_dir {
            items_from_sorted(level(e.children@, ig), prefix + pad, ig)
        } else {
            Seq::<RItem>::empty()
        };
        let rest = items_from_sorted(lvl.drop_first(), prefix, ig);
        let items = items_from_sorted(lvl, prefix, ig);
        assert(items == seq![it0] + sub + rest);
        assert(pad.len() == 4);
        if e.is_dir {
            lemma_items_prefix_len(level(e.children@, ig), prefix + pad, ig);
        }
        assert forall|i: int| 0 <= i < sub.len() implies (#[trigger] sub[i]).prefix != prefix by {
            assert(sub[i] == items_from_sorted(level(e.children@, ig), prefix + pad, ig)[i]);
            assert(sub[i].prefix.len() >= (prefix + pad).len());
            assert((prefix + pad).len() == prefix.len() + 4);
        }
        lemma_at_level_empty(sub, prefix);
        lemma_at_level_add(seq![it0] + sub, rest, prefix);
        lemma_at_level_add(seq![it0], sub, prefix);
        assert(seq![it0].drop_first() =~= Seq::<RItem>::empty());
        lemma_at_level_empty(seq![it0].drop_first(), prefix);
        assert(at_level(seq![it0], prefix) =~= seq![it0]);
        lemma_at_level_items(lvl.drop_first(), prefix, ig);
        let its = at_level(items, prefix);
        let its_r = at_level(rest, prefix);
        assert(its =~= seq![it0] + its_r);
        assert forall|k: int| 0 <= k < lvl.len() implies (#[trigger] its[k]).name == lvl[k].name@
            && its[k].prefix == prefix && (its[k].is_last <==> k == lvl.len() - 1) by {
            if k == 0 {
                assert(its[0] == it0);
            } else {
                assert(its[k] == its_r[k - 1]);
                assert(lvl.drop_first()[k - 1] == lvl[k]);
            }
        }
    }
}

/// Law: each rendered directory level marks exactly one entry — its final,
/// lexicographically last visible one — with the closing `└── ` glyph, and
/// that entry is the last line emitted for the level.
pub proof fn lemma_one_last_per_level(entries: Seq<Entry>, prefix: Seq<char>, ig: Seq<Seq<char>>)
    ensures
        ({
            let its = at_level(render_items(entries, prefix, ig), prefix);
            &&& its.len() == level(entries, ig).len()
            &&& forall|k: int|
                0 <= k < its.len() ==> ((#[trigger] its[k]).is_last <==> k == its.len() - 1)
        }),
{
    lemma_at_level_items(level(entries, ig), prefix, ig);
}

/// Law: the lines of one rendered level follow strictly ascending
/// lexicographic order of display name.
pub proof fn lemma_siblings_strictly_ascending(
    entries: Seq<Entry>,
    prefix: Seq<char>,
    ig: Seq<Seq<char>>,
)
    requires
        distinct_names(entries),
    ensures
        ({
            let its = at_level(render_items(entries, prefix, ig), prefix);
            forall|k: int|
                0 <= k < its.len() - 1 ==> lex_lt(#[trigger] its[k].name, its[k + 1].name)
        }),
{
    lemma_level_strictly_sorted(entries, ig);
    lemma_at_level_items(level(entries, ig), prefix, ig);
}

proof fn lemma_items_not_ignored(lvl: Seq<Entry>, prefix: Seq<char>, ig: Seq<Seq<char>>)
    requires
        forall|i: int| 0 <= i < lvl.len() ==> keep(ig, (#[trigger] lvl[i]).name@),
    ensures
        forall|i: int|
            0 <= i < items_from_sorted(lvl, prefix, ig).len() ==> keep(
                ig,
                (#[trigger] items_from_sorted(lvl, prefix, ig)[i]).name,
            ),
    decreases depth(lvl), lvl.len(),
{
    if lvl.len() > 0 {
        let e = lvl[0];
        let last = lvl.len() == 1;
        let pad = if last {
            space_pad()
        } else {
            bar_pad()
        };
        let it0 = (RItem { prefix, is_last: last, name: e.name@ });
        lemma_depth_elem(lvl, 0);
        lemma_level_contains(e.children@, ig);
        lemma_depth_subset(e.children@, level(e.children@, ig));
        let sub = if e.is_dir {
            items_from_sorted(level(e.children@, ig), prefix + pad, ig)
        } else {
            Seq::<RItem>::empty()
        };
        let rest = items_from_sorted(lvl.drop_first(), prefix, ig);
        if e.is_dir {
            lemma_level_kept(e.children@, ig);
            lemma_items_not_ignored(level(e.children@, ig), prefix + pad, ig);
        }
        assert forall|i: int| 0 <= i < lvl.drop_first().len() implies keep(
            ig,
            (#[trigger] lvl.drop_first()[i]).name@,
        ) by {
            assert(lvl.drop_first()[i] == lvl[i + 1]);
        }
        lemma_items_not_ignored(lvl.drop_first(), prefix, ig);
        let items = items_from_sorted(lvl, prefix, ig);
        assert(items == seq![it0] + sub + rest);
        assert forall|i: int| 0 <= i < items.len() implies keep(
            ig,
            (#[trigger] items[i]).name,
        ) by {
            if i == 0 {
                assert(items[0] == it0);
            } else if i < 1 + sub.len() {
                assert(items[i] == sub[i - 1]);
            } else {
                assert(items[i] == rest[i - 1 - sub.len()]);
            }
        }
    }
}

/// Law: no rendered item — and so no output line, each line being the item's
/// prefix, glyph and name — carries a display name from the ignore set.
pub proof fn lemma_no_ignored_output(entries: Seq<Entry>, prefix: Seq<char>, ig: Seq<Seq<char>>)
    ensures
        forall|i: int|
            0 <= i < render_items(entries, prefix, ig).len() ==> keep(
                ig,
                (#[trigger] render_items(entries, prefix, ig)[i]).name,
            ),
{
    lemma_level_kept(entries, ig);
    lemma_items_not_ignored(level(entries, ig), prefix, ig);
}

proof fn lemma_filter_idempotent(s: Seq<Entry>, ig: Seq<Seq<char>>)
    ensures
        filter_level(filter_level(s, ig), ig) == filter_level(s, ig),
    decreases s.len(),
{
    if s.len() > 0 {
        lemma_filter_idempotent(s.drop_last(), ig);
        let rest = filter_level(s.drop_last(), ig);
        if keep(ig, s.last().name@) {
            assert(rest.push(s.last()).drop_last() =~= rest);
            assert(rest.push(s.last()).last() == s.last());
        }
    }
}

/// Law: no descendant of an ignored entry appears in the output at all —
/// rendering is unchanged if every ignored entry, together with its whole
/// subtree, is removed from the level beforehand.
pub proof fn lemma_ignored_pruned(entries: Seq<Entry>, prefix: Seq<char>, ig: Seq<Seq<char>>)
    ensures
        render_items(filter_level(entries, ig), prefix, ig) == render_items(entries, prefix, ig),
{
    lemma_filter_idempotent(entries, ig);
}

proof fn lemma_insert_complete(s: Seq<Entry>, e: Entry)
    ensures
        insert_sorted(s, e).contains(e),
        forall|x: Entry| #[trigger] s.contains(x) ==> insert_sorted(s, e).contains(x),
    decreases s.len(),
{
    let r = insert_sorted(s, e);
    if s.len() == 0 {
        assert(r[0] == e);
    } else if lex_le(e.name@, s[0].name@) {
        assert(r[0] == e);
        assert forall|x: Entry| #[trigger] s.contains(x) implies r.contains(x) by {
            let m = choose|m: int| 0 <= m < s.len() && s[m] == x;
            assert(r[m + 1] == x);
        }
    } else {
        lemma_insert_complete(s.drop_first(), e);
        let rr = insert_sorted(s.drop_first(), e);
        let k = choose|k: int| 0 <= k < rr.len() && rr[k] == e;
        assert(r[k + 1] == e);
        assert forall|x: Entry| #[trigger] s.contains(x) implies r.contains(x) by {
            let m = choose|m: int| 0 <= m < s.len() && s[m] == x;
            if m == 0 {
                assert(r[0] == x);
            } else {
                assert(s.drop_first()[m - 1] == x);
                assert(s.drop_first().contains(x));
                let k2 = choose|k2: int| 0 <= k2 < rr.len() && rr[k2] == x;
                assert(r[k2 + 1] == x);
            }
        }
    }
}

proof fn lemma_sort_complete(s: Seq<Entry>)
    ensures
        forall|x: Entry| #[trigger] s.contains(x) ==> sort_level(s).contains(x),
    decreases s.len(),
{
    if s.len() > 0 {
        lemma_sort_complete(s.drop_last());
        lemma_insert_complete(sort_level(s.drop_last()), s.last());
        assert forall|x: Entry| #[trigger] s.contains(x) implies sort_level(s).contains(x) by {
            let m = choose|m: int| 0 <= m < s.len() && s[m] == x;
            if m == s.len() - 1 {
                assert(x == s.last());
            } else {
                assert(s.drop_last()[m] == x);
                assert(s.drop_last().contains(x));
            }
        }
    }
}

proof fn lemma_filter_complete(s: Seq<Entry>, ig: Seq<Seq<char>>)
    ensures
        forall|x: Entry|
            #[trigger] s.contains(x) && keep(ig, x.name@) ==> filter_level(s, ig).contains(x),
    decreases s.len(),
{
    if s.len() > 0 {
        lemma_filter_complete(s.drop_last(), ig);
        let rest = filter_level(s.drop_last(), ig);
        let f = filter_level(s, ig);
        assert forall|x: Entry| #[trigger] s.contains(x) && keep(ig, x.name@) implies f.contains(
            x,
        ) by {
            let m = choose|m: int| 0 <= m < s.len() && s[m] == x;
            if m == s.len() - 1 {
                assert(x == s.last());
                assert(f[rest.len() as int] == x);
            } else {
                assert(s.drop_last()[m] == x);
                assert(s.drop_last().contains(x));
                let k = choose|k: int| 0 <= k < rest.len() && rest[k] == x;
                assert(f[k] == x);
            }
        }
    }
}

/// An entry is visible in a level exactly when it stands in the level and
/// its display name is not ignored.
pub proof fn lemma_level_set(s: Seq<Entry>, ig: Seq<Seq<char>>)
    ensures
        forall|x: Entry|
            #[trigger] level(s, ig).contains(x) <==> s.contains(x) && keep(ig, x.name@),
{
    lemma_filter_contains(s, ig);
    lemma_sort_contains(filter_level(s, ig));
    lemma_filter_complete(s, ig);
    lemma_sort_complete(filter_level(s, ig));
    let f = filter_level(s, ig);
    assert forall|x: Entry| #[trigger] level(s, ig).contains(x) implies s.contains(x) && keep(
        ig,
        x.name@,
    ) by {
        let i = choose|i: int| 0 <= i < level(s, ig).len() && level(s, ig)[i] == x;
        let k = choose|k: int| 0 <= k < f.len() && f[k] == x;
    }
}

proof fn lemma_sorted_unique(a: Seq<Entry>, b: Seq<Entry>)
    requires
        sorted_names(a),
        distinct_names(a),
        sorted_names(b),
        distinct_names(b),
        forall|x: Entry| #[trigger] a.contains(x) <==> b.contains(x),
    ensures
        a == b,
    decreases a.len(),
{
    if a.len() == 0 {
        if b.len() > 0 {
            assert(b.contains(b[0]));
            assert(a.contains(b[0]));
        }
        assert(a =~= b);
    } else {
        assert(a.contains(a[0]));
        assert(b.contains(a[0]));
        let j = choose|j: int| 0 <= j < b.len() && b[j] == a[0];
        assert(b.contains(b[0]));
        assert(a.contains(b[0]));
        let i = choose|i: int| 0 <= i < a.len() && a[i] == b[0];
        if i == 0 {
            assert(a[0] == b[0]);
        } else if j == 0 {
            assert(a[0] == b[0]);
        } else {
            assert(lex_le(a[0].name@, a[i].name@));
            assert(lex_le(b[0].name@, b[j].name@));
            lemma_lex_antisym(a[0].name@, b[0].name@);
            assert(b[0].name@ != b[j].name@);
            assert(false);
        }
        assert forall|x: Entry| #[trigger] a.drop_first().contains(x)
            <==> b.drop_first().contains(x) by {
            if a.drop_first().contains(x) {
                let m = choose|m: int|
                    0 <= m < a.drop_first().len() && a.drop_first()[m] == x;
                assert(a[m + 1] == x);
                assert(a.contains(x));
                assert(a[0].name@ != a[m + 1].name@);
                assert(b.contains(x));
                let n = choose|n: int| 0 <= n < b.len() && b[n] == x;
                assert(n != 0);
                assert(b.drop_first()[n - 1] == x);
            }
            if b.drop_first().contains(x) {
                let m = choose|m: int|
                    0 <= m < b.drop_first().len() && b.drop_first()[m] == x;
                assert(b[m + 1] == x);
                assert(b.contains(x));
                assert(b[0].name@ != b[m + 1].name@);
                assert(a.contains(x));
                let n = choose|n: int| 0 <= n < a.len() && a[n] == x;
                assert(n != 0);
                assert(a.drop_first()[n - 1] == x);
            }
        }
        lemma_sorted_drop_first(a);
        lemma_sorted_drop_first(b);
        lemma_distinct_drop(a);
        lemma_distinct_drop(b);
        lemma_sorted_unique(a.drop_first(), b.drop_first());
        assert(a.drop_first().len() == b.drop_first().len());
        assert forall|k: int| 0 <= k < a.len() implies a[k] == b[k] by {
            if k > 0 {
                assert(a.drop_first()[k - 1] == a[k]);
                assert(b.drop_first()[k - 1] == b[k]);
            }
        }
        assert(a =~= b);
    }
}

/// Law: the output does not depend on the order in which the file system
/// listed a level's entries: two levels that hold the same entries, in any
/// order, render identically.
pub proof fn lemma_render_order_independent(
    entries1: Seq<Entry>,
    entries2: Seq<Entry>,
    prefix: Seq<char>,
    ig: Seq<Seq<char>>,
)
    requires
        distinct_names(entries1),
        distinct_names(entries2),
        forall|x: Entry| #[trigger] entries1.contains(x) <==> entries2.contains(x),
    ensures
        render_items(entries1, prefix, ig) == render_items(entries2, prefix, ig),
{
    lemma_level_set(entries1, ig);
    lemma_level_set(entries2, ig);
    lemma_level_strictly_sorted(entries1, ig);
    lemma_level_strictly_sorted(entries2, ig);
    assert forall|x: Entry| #[trigger] level(entries1, ig).contains(x) <==> level(
        entries2,
        ig,
    ).contains(x) by {}
    lemma_sorted_unique(level(entries1, ig), level(entries2, ig));
}

/// Law: rendering is a function of the tree value and the ignore set alone,
/// so rendering an unmodified tree twice produces byte-identical output.
pub proof fn lemma_render_deterministic(root1: Entry, root2: Entry, ig: Seq<Seq<char>>)
    requires
        root1 == root2,
    ensures
        render_lines(root1, ig) == render_lines(root2, ig),
{
}

} // verus!
