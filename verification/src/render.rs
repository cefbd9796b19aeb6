//! The directory-tree renderer: filtering by an ignore set, sorting each
//! level by display name, and emitting one branch-annotated line per entry.

use vstd::prelude::*;

use crate::order::{lex_le, str_le};
use crate::tree::{depth, lemma_depth_elem, lemma_depth_subset, Entry};

verus! {

/// One rendered line, before formatting: the indentation prefix of its level,
/// whether it is the last entry of that level, and the entry's display name.
#[verifier::ext_equal]
pub struct RItem {
    pub prefix: Seq<char>,
    pub is_last: bool,
    pub name: Seq<char>,
}

/// Glyph in front of every entry that is not the last of its level.
pub open spec fn tee_glyph() -> Seq<char> {
    "\u{251c}\u{2500}\u{2500} "@
}

/// Glyph in front of the last entry of a level.
pub open spec fn ell_glyph() -> Seq<char> {
    "\u{2514}\u{2500}\u{2500} "@
}

/// Continuation token appended to the prefix under a non-last directory.
pub open spec fn bar_pad() -> Seq<char> {
    "\u{2502}   "@
}

/// Continuation token appended to the prefix under a last directory.
pub open spec fn space_pad() -> Seq<char> {
    "    "@
}

/// The text of one rendered line.
pub open spec fn line_of(it: RItem) -> Seq<char> {
    it.prefix + (if it.is_last {
        ell_glyph()
    } else {
        tee_glyph()
    }) + it.name
}

/// The views of a sequence of strings.
pub open spec fn names_view(v: Seq<String>) -> Seq<Seq<char>> {
    v.map_values(|s: String| s@)
}

/// An entry is kept exactly when its display name is not in the ignore set.
pub open spec fn keep(ig: Seq<Seq<char>>, name: Seq<char>) -> bool {
    !ig.contains(name)
}

/// Drop every entry of a level whose display name is ignored; order is kept.
pub open spec fn filter_level(s: Seq<Entry>, ig: Seq<Seq<char>>) -> Seq<Entry>
    decreases s.len(),
{
    if s.len() == 0 {
        Seq::empty()
    } else {
        let rest = filter_level(s.drop_last(), ig);
        if keep(ig, s.last().name@) {
            rest.push(s.last())
        } else {
            rest
        }
    }
}

/// Insert an entry into a level sorted by display name, in front of the
/// first entry it does not come after.
pub open spec fn insert_sorted(s: Seq<Entry>, e: Entry) -> Seq<Entry>
    decreases s.len(),
{
    if s.len() == 0 {
        seq![e]
    } else if lex_le(e.name@, s[0].name@) {
        seq![e] + s
    } else {
        seq![s[0]] + insert_sorted(s.drop_first(), e)
    }
}

/// Sort a level by display name (insertion sort).
pub open spec fn sort_level(s: Seq<Entry>) -> Seq<Entry>
    decreases s.len(),
{
    if s.len() == 0 {
        Seq::empty()
    } else {
        insert_sorted(sort_level(s.drop_last()), s.last())
    }
}

/// The visible entries of one level, in the order they are rendered:
/// filtered by the ignore set, then sorted by display name.
pub open spec fn level(s: Seq<Entry>, ig: Seq<Seq<char>>) -> Seq<Entry> {
    sort_level(filter_level(s, ig))
}

/// The rendered items of an already filtered and sorted level: one item per
/// entry, each directory entry followed by the items of its own subtree,
/// rendered under a prefix extended by one continuation token.
pub open spec fn items_from_sorted(lvl: Seq<Entry>, prefix: Seq<char>, ig: Seq<Seq<char>>) -> Seq<
    RItem,
>
    decreases depth(lvl), lvl.len(),
    via items_from_sorted_dec
{
    if lvl.len() == 0 {
        Seq::empty()
    } else {
        let e = lvl[0];
        let last = lvl.len() == 1;
        let it = (RItem { prefix, is_last: last, name: e.name@ });
        let pad = if last {
            space_pad()
        } else {
            bar_pad()
        };
        let sub = if e.is_dir {
            items_from_sorted(level(e.children@, ig), prefix + pad, ig)
        } else {
            Seq::empty()
        };
        seq![it] + sub + items_from_sorted(lvl.drop_first(), prefix, ig)
    }
}

#[via_fn]
proof fn items_from_sorted_dec(lvl: Seq<Entry>, prefix: Seq<char>, ig: Seq<Seq<char>>) {
    if lvl.len() > 0 {
        let e = lvl[0];
        lemma_depth_elem(lvl, 0);
        lemma_level_contains(e.children@, ig);
        lemma_depth_subset(e.children@, level(e.children@, ig));
    }
}

/// The rendered items of a directory level as found on disk: its entries are
/// filtered, sorted, and rendered under the given prefix.
pub open spec fn render_items(entries: Seq<Entry>, prefix: Seq<char>, ig: Seq<Seq<char>>) -> Seq<
    RItem,
> {
    items_from_sorted(level(entries, ig), prefix, ig)
}

/// The full rendering of a root entry: the lines for its descendants, under
/// an empty prefix. A root that is not a directory renders to no lines.
pub open spec fn render_lines(root: Entry, ig: Seq<Seq<char>>) -> Seq<Seq<char>> {
    if root.is_dir {
        render_items(root.children@, Seq::empty(), ig).map_values(|it: RItem| line_of(it))
    } else {
        Seq::empty()
    }
}

/// Every entry of the filtered level occurs in the original level and has a
/// display name that is not ignored.
pub proof fn lemma_filter_contains(s: Seq<Entry>, ig: Seq<Seq<char>>)
    ensures
        forall|i: int|
            0 <= i < filter_level(s, ig).len() ==> s.contains(#[trigger] filter_level(s, ig)[i])
                && keep(ig, filter_level(s, ig)[i].name@),
    decreases s.len(),
{
    if s.len() > 0 {
        lemma_filter_contains(s.drop_last(), ig);
        let f = filter_level(s, ig);
        let rest = filter_level(s.drop_last(), ig);
        assert forall|i: int| 0 <= i < f.len() implies s.contains(#[trigger] f[i]) && keep(
            ig,
            f[i].name@,
        ) by {
            if i < rest.len() {
                assert(f[i] == rest[i]);
                let k = choose|k: int|
                    0 <= k < s.drop_last().len() && s.drop_last()[k] == rest[i];
                assert(s[k] == rest[i]);
            } else {
                assert(f[i] == s.last());
                assert(s[s.len() - 1] == s.last());
            }
        }
    }
}

/// Every entry of `insert_sorted(s, e)` is either `e` or an entry of `s`.
pub proof fn lemma_insert_contains(s: Seq<Entry>, e: Entry)
    ensures
        forall|i: int|
            0 <= i < insert_sorted(s, e).len() ==> (#[trigger] insert_sorted(s, e)[i] == e
                || s.contains(insert_sorted(s, e)[i])),
    decreases s.len(),
{
    let r = insert_sorted(s, e);
    if s.len() == 0 {
    } else if lex_le(e.name@, s[0].name@) {
        assert forall|i: int| 0 <= i < r.len() implies (#[trigger] r[i] == e || s.contains(
            r[i],
        )) by {
            if i > 0 {
                assert(r[i] == s[i - 1]);
            }
        }
    } else {
        lemma_insert_contains(s.drop_first(), e);
        let rr = insert_sorted(s.drop_first(), e);
        assert forall|i: int| 0 <= i < r.len() implies (#[trigger] r[i] == e || s.contains(
            r[i],
        )) by {
            if i == 0 {
                assert(r[0] == s[0]);
                assert(s.contains(s[0]));
            } else {
                assert(r[i] == rr[i - 1]);
                if rr[i - 1] != e {
                    let k = choose|k: int|
                        0 <= k < s.drop_first().len() && s.drop_first()[k] == rr[i - 1];
                    assert(s[k + 1] == rr[i - 1]);
                }
            }
        }
    }
}

/// Every entry of the sorted level occurs in the unsorted one.
pub proof fn lemma_sort_contains(s: Seq<Entry>)
    ensures
        forall|i: int|
            0 <= i < sort_level(s).len() ==> s.contains(#[trigger] sort_level(s)[i]),
    decreases s.len(),
{
    if s.len() > 0 {
        lemma_sort_contains(s.drop_last());
        lemma_insert_contains(sort_level(s.drop_last()), s.last());
        let r = sort_level(s);
        assert forall|i: int| 0 <= i < r.len() implies s.contains(#[trigger] r[i]) by {
            if r[i] == s.last() {
                assert(s[s.len() - 1] == s.last());
            } else {
                let k = choose|k: int|
                    0 <= k < sort_level(s.drop_last()).len() && sort_level(s.drop_last())[k]
                        == r[i];
                let m = choose|m: int|
                    0 <= m < s.drop_last().len() && s.drop_last()[m] == sort_level(
                        s.drop_last(),
                    )[k];
                assert(s[m] == r[i]);
            }
        }
    }
}

/// Every entry of `level(s, ig)` occurs in `s`.
pub proof fn lemma_level_contains(s: Seq<Entry>, ig: Seq<Seq<char>>)
    ensures
        forall|i: int| 0 <= i < level(s, ig).len() ==> s.contains(#[trigger] level(s, ig)[i]),
{
    lemma_filter_contains(s, ig);
    lemma_sort_contains(filter_level(s, ig));
    let f = filter_level(s, ig);
    assert forall|i: int| 0 <= i < level(s, ig).len() implies s.contains(
        #[trigger] level(s, ig)[i],
    ) by {
        let k = choose|k: int| 0 <= k < f.len() && f[k] == level(s, ig)[i];
    }
}

/// No entry of `level(s, ig)` has an ignored display name.
pub proof fn lemma_level_kept(s: Seq<Entry>, ig: Seq<Seq<char>>)
    ensures
        forall|i: int| 0 <= i < level(s, ig).len() ==> keep(ig, #[trigger] level(s, ig)[i].name@),
{
    lemma_filter_contains(s, ig);
    lemma_sort_contains(filter_level(s, ig));
    let f = filter_level(s, ig);
    assert forall|i: int| 0 <= i < level(s, ig).len() implies keep(
        ig,
        #[trigger] level(s, ig)[i].name@,
    ) by {
        let k = choose|k: int| 0 <= k < f.len() && f[k] == level(s, ig)[i];
    }
}

/// Decide whether a display name is in the ignore set: true exactly when the
/// name equals one of its members, compared case-sensitively and on the final
/// path segment alone.
pub fn is_ignored(name: &String, ignore: &Vec<String>) -> (r: bool)
    ensures
        r == names_view(ignore@).contains(name@),
{
    let mut i: usize = 0;
    while i < ignore.len()
        invariant
            i <= ignore.len(),
            forall|j: int| 0 <= j < i ==> names_view(ignore@)[j] != name@,
        decreases ignore.len() - i,
    {
        if name.eq(&ignore[i]) {
            proof {
                assert(names_view(ignore@)[i as int] == name@);
            }
            return true;
        }
        i += 1;
    }
    proof {
        if names_view(ignore@).contains(name@) {
            let j = choose|j: int|
                0 <= j < names_view(ignore@).len() && names_view(ignore@)[j] == name@;
        }
    }
    false
}

/// Drop the entries of a level whose display names are ignored.
fn filter_entries(v: Vec<Entry>, ignore: &Vec<String>) -> (r: Vec<Entry>)
    ensures
        r@ == filter_level(v@, names_view(ignore@)),
    decreases v@.len(),
{
    let ghost v0 = v@;
    let mut v = v;
    match v.pop() {
        None => {
            assert(v@ =~= Seq::<Entry>::empty());
            v
        },
        Some(e) => {
            let mut r = filter_entries(v, ignore);
            if !is_ignored(&e.name, ignore) {
                r.push(e);
            }
            r
        },
    }
}

/// Insert an entry into a level sorted by display name.
fn insert_entry(v: Vec<Entry>, e: Entry) -> (r: Vec<Entry>)
    ensures
        r@ == insert_sorted(v@, e),
    decreases v@.len(),
{
    let ghost v0 = v@;
    if v.len() == 0 {
        let mut v = v;
        v.push(e);
        assert(v@ =~= seq![e]);
        v
    } else {
        let le = str_le(e.name.as_str(), v[0].name.as_str());
        if le {
            let mut v = v;
            v.insert(0, e);
            assert(v@ =~= seq![e] + v0);
            v
        } else {
            let mut v = v;
            let h = v.remove(0);
            assert(v@ =~= v0.drop_first());
            let mut r = insert_entry(v, e);
            r.insert(0, h);
            assert(r@ =~= seq![v0[0]] + insert_sorted(v0.drop_first(), e));
            r
        }
    }
}

/// Sort a level by display name.
fn sort_entries(v: Vec<Entry>) -> (r: Vec<Entry>)
    ensures
        r@ == sort_level(v@),
    decreases v@.len(),
{
    let ghost v0 = v@;
    let mut v = v;
    match v.pop() {
        None => {
            assert(v@ =~= Seq::<Entry>::empty());
            v
        },
        Some(e) => {
            let r = sort_entries(v);
            insert_entry(r, e)
        },
    }
}

/// Append to `out` the rendered lines of one directory level and of the
/// subtrees below it: the entries are filtered, sorted, and emitted under
/// `prefix`.
#[verifier::loop_isolation(false)]
fn render_into(entries: Vec<Entry>, prefix: &String, ignore: &Vec<String>, out: &mut Vec<String>)
    ensures
        names_view(final(out)@) == names_view(old(out)@) + render_items(
            entries@,
            prefix@,
            names_view(ignore@),
        ).map_values(|it: RItem| line_of(it)),
    decreases depth(entries@),
{
    let ghost es = entries@;
    let ghost ig = names_view(ignore@);
    let ghost p = prefix@;
    let filtered = filter_entries(entries, ignore);
    let mut lvl = sort_entries(filtered);
    proof {
        lemma_level_contains(es, ig);
        assert(lvl@ == level(es, ig));
        assert forall|i: int| 0 <= i < lvl@.len() implies es.contains(#[trigger] lvl@[i]) by {
            assert(lvl@[i] == level(es, ig)[i]);
        }
    }
    let ghost lvl0 = lvl@;
    while lvl.len() > 0
        invariant
            forall|i: int| 0 <= i < lvl@.len() ==> es.contains(#[trigger] lvl@[i]),
            names_view(out@) + items_from_sorted(lvl@, p, ig).map_values(|it: RItem| line_of(it))
                == names_view(old(out)@) + items_from_sorted(lvl0, p, ig).map_values(
                |it: RItem| line_of(it),
            ),
            p == prefix@,
            ig == names_view(ignore@),
        decreases lvl@.len(),
    {
        let is_last = lvl.len() == 1;
        let ghost lpre = lvl@;
        let e = lvl.remove(0);
        let ghost eg = e;
        let ghost out_pre = out@;
        let mut line = prefix.clone();
        if is_last {
            line.append("\u{2514}\u{2500}\u{2500} ");
        } else {
            line.append("\u{251c}\u{2500}\u{2500} ");
        }
        line.append(e.name.as_str());
        let ghost lview = line@;
        out.push(line);
        let ghost it0 = (RItem { prefix: p, is_last: is_last, name: eg.name@ });
        let ghost pad = if is_last {
            space_pad()
        } else {
            bar_pad()
        };
        if e.is_dir {
            let mut cp = prefix.clone();
            if is_last {
                cp.append("    ");
            } else {
                cp.append("\u{2502}   ");
            }
            proof {
                assert(cp@ == p + pad);
                assert(es.contains(lpre[0]));
                let j = choose|j: int| 0 <= j < es.len() && es[j] == lpre[0];
                lemma_depth_elem(es, j);
                lemma_level_contains(eg.children@, ig);
                lemma_depth_subset(eg.children@, level(eg.children@, ig));
            }
            render_into(e.children, &cp, ignore, out);
        }
        proof {
            let f = |it: RItem| line_of(it);
            let sub = if eg.is_dir {
                items_from_sorted(level(eg.children@, ig), p + pad, ig)
            } else {
                Seq::<RItem>::empty()
            };
            let rest = items_from_sorted(lpre.drop_first(), p, ig);
            assert(items_from_sorted(lpre, p, ig) == seq![it0] + sub + rest);
            assert(lvl@ =~= lpre.drop_first());
            assert(lview == line_of(it0));
            assert((seq![it0] + sub + rest).map_values(f) =~= seq![line_of(it0)]
                + sub.map_values(f) + rest.map_values(f));
            assert(names_view(out_pre.push(line)) =~= names_view(out_pre) + seq![lview]);
            if eg.is_dir {
                assert(names_view(out@) == names_view(out_pre.push(line)) + sub.map_values(f));
            } else {
                assert(names_view(out@) =~= names_view(out_pre) + seq![lview]);
            }
            assert(names_view(out@) + rest.map_values(f) =~= names_view(out_pre)
                + items_from_sorted(lpre, p, ig).map_values(f));
            assert forall|i: int| 0 <= i < lvl@.len() implies es.contains(#[trigger] lvl@[i]) by {
                assert(lvl@[i] == lpre[i + 1]);
            }
        }
    }
    proof {
        let f = |it: RItem| line_of(it);
        assert(items_from_sorted(lvl@, p, ig).map_values(f) =~= Seq::<Seq<char>>::empty());
        assert(names_view(out@) + Seq::<Seq<char>>::empty() =~= names_view(out@));
    }
}

/// Render the filtered tree view of `root`: one line per visible descendant,
/// in sorted order, with branch glyphs and accumulated indentation.
///
/// The lines are exactly `render_lines(root, names_view(ignore@))` — a
/// function of the tree value and the ignore set alone — so rendering an
/// unmodified tree twice produces byte-identical output, whatever order the
/// entries were listed in.
pub fn render(root: Entry, ignore: &Vec<String>) -> (lines: Vec<String>)
    ensures
        names_view(lines@) == render_lines(root, names_view(ignore@)),
{
    let ghost r0 = root;
    let mut out: Vec<String> = Vec::new();
    assert(names_view(out@) =~= Seq::<Seq<char>>::empty());
    if root.is_dir {
        let prefix = String::new();
        render_into(root.children, &prefix, ignore, &mut out);
        assert(names_view(out@) =~= render_lines(r0, names_view(ignore@)));
    } else {
        assert(names_view(out@) =~= render_lines(r0, names_view(ignore@)));
    }
    out
}

} // verus!
