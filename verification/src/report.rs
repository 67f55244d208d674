use vstd::prelude::*;

verus! {

use vstd::relations::sorted_by;
use crate::document::EntryModel;
use crate::document::FlatEntry;
use crate::document::SpoilerDocument;
use crate::document::doc_entries;
use crate::document::entry_views;
use crate::document::flatten_document;
use crate::strings::views_of;
use vstd::string::StringExecFns;
use crate::strings::dec_str;
use crate::strings::lex_le;
use crate::strings::lex_leq_fn;
use crate::strings::lex_lt;
use crate::strings::strictly_sorted;
use crate::strings::lemma_lex_le_refl;
use crate::strings::lemma_lex_le_antisym;
use crate::strings::lemma_lex_total_ordering;

/// The report line for one placement: four spaces, then
/// `Player {player} -> {world}: {location}`.
pub open spec fn entry_line(e: EntryModel) -> Seq<char> {
    "    Player "@ + dec_str(e.player as int) + " -> "@ + e.world + ": "@ + e.location
}

/// The item name of a placement, as a first-class spec function.
pub open spec fn item_of_fn() -> spec_fn(EntryModel) -> Seq<char> {
    |e: EntryModel| e.item
}

/// Keeps the item names that are not in the ignore list.
pub open spec fn keep_fn(ignore: Seq<Seq<char>>) -> spec_fn(Seq<char>) -> bool {
    |n: Seq<char>| !ignore.contains(n)
}

/// Selects the placements of one item name.
pub open spec fn has_item_fn(name: Seq<char>) -> spec_fn(EntryModel) -> bool {
    |e: EntryModel| e.item == name
}

/// Renders a placement, as a first-class spec function.
pub open spec fn line_fn() -> spec_fn(EntryModel) -> Seq<char> {
    |e: EntryModel| entry_line(e)
}

/// The item names of all placements that survive the ignore filter,
/// one occurrence per placement, in document order.
pub open spec fn surviving_names(entries: Seq<EntryModel>, ignore: Seq<Seq<char>>) -> Seq<
    Seq<char>,
> {
    entries.map_values(item_of_fn()).filter(keep_fn(ignore))
}

/// Collapses runs of equal adjacent elements to a single occurrence.
pub open spec fn dedup_sorted(s: Seq<Seq<char>>) -> Seq<Seq<char>>
    decreases s.len(),
{
    if s.len() <= 1 {
        s
    } else if s[0] == s[1] {
        dedup_sorted(s.drop_first())
    } else {
        seq![s[0]] + dedup_sorted(s.drop_first())
    }
}

/// The item-name headings of the report: the surviving item names,
/// sorted ascending and with duplicates removed.
pub open spec fn report_names(entries: Seq<EntryModel>, ignore: Seq<Seq<char>>) -> Seq<Seq<char>> {
    dedup_sorted(surviving_names(entries, ignore).sort_by(lex_leq_fn()))
}

/// The rendered lines of one item's placements, in document order.
pub open spec fn rendered_lines(entries: Seq<EntryModel>, name: Seq<char>) -> Seq<Seq<char>> {
    entries.filter(has_item_fn(name)).map_values(line_fn())
}

/// The location lines of one item's block, sorted ascending on the
/// fully rendered text.
pub open spec fn item_lines(entries: Seq<EntryModel>, name: Seq<char>) -> Seq<Seq<char>> {
    rendered_lines(entries, name).sort_by(lex_leq_fn())
}

/// One item's block: the item name line followed by its location lines.
pub open spec fn item_block(entries: Seq<EntryModel>, name: Seq<char>) -> Seq<Seq<char>> {
    seq![name] + item_lines(entries, name)
}

/// `item_block` as a first-class spec function over the name.
pub open spec fn block_fn(entries: Seq<EntryModel>) -> spec_fn(Seq<char>) -> Seq<Seq<char>> {
    |n: Seq<char>| item_block(entries, n)
}

/// Every line of the report, in order.
pub open spec fn report_lines(entries: Seq<EntryModel>, ignore: Seq<Seq<char>>) -> Seq<Seq<char>> {
    report_names(entries, ignore).flat_map(block_fn(entries))
}

/// Joins lines with a single newline between consecutive lines and no
/// trailing newline.
pub open spec fn join_lines(ls: Seq<Seq<char>>) -> Seq<char>
    decreases ls.len(),
{
    if ls.len() == 0 {
        Seq::empty()
    } else if ls.len() == 1 {
        ls[0]
    } else {
        join_lines(ls.drop_last()) + seq!['\n'] + ls.last()
    }
}

/// The full report text for a document's placements and an ignore list.
pub open spec fn spec_report(entries: Seq<EntryModel>, ignore: Seq<Seq<char>>) -> Seq<char> {
    join_lines(report_lines(entries, ignore))
}

/// Membership in a filtered sequence is membership plus the predicate.
pub proof fn lemma_filter_membership<A>(s: Seq<A>, pred: spec_fn(A) -> bool)
    ensures
        forall|x: A|
            #[trigger] s.filter(pred).contains(x) <==> s.contains(x) && pred(x),
    decreases s.len(),
{
    reveal(Seq::filter);
    if s.len() > 0 {
        lemma_filter_membership(s.drop_last(), pred);
        assert forall|x: A| s.contains(x) && pred(x) implies #[trigger] s.filter(pred).contains(
            x,
        ) by {
            let i = choose|i: int| 0 <= i < s.len() && s[i] == x;
            if i < s.len() - 1 {
                assert(s.drop_last()[i] == x);
                assert(s.drop_last().contains(x));
            }
        }
        assert forall|x: A| #[trigger] s.filter(pred).contains(x) implies s.contains(x) && pred(
            x,
        ) by {
            if s.drop_last().filter(pred).contains(x) {
                let j = choose|j: int| 0 <= j < s.drop_last().len() && s.drop_last()[j] == x;
                assert(s[j] == x);
            }
        }
    }
}

/// Deduplicating a sorted sequence yields a strictly sorted sequence
/// with the same set of elements.
pub proof fn lemma_dedup_sorted(s: Seq<Seq<char>>)
    requires
        sorted_by(s, lex_leq_fn()),
    ensures
        strictly_sorted(dedup_sorted(s)),
        dedup_sorted(s).to_set() == s.to_set(),
    decreases s.len(),
{
    let d = dedup_sorted(s);
    if s.len() <= 1 {
        assert(d.to_set() =~= s.to_set());
    } else {
        let tail = s.drop_first();
        assert forall|i: int, j: int| 0 <= i < j < tail.len()
            implies lex_leq_fn()(#[trigger] tail[i], #[trigger] tail[j]) by {
            assert(lex_leq_fn()(s[i + 1], s[j + 1]));
        }
        lemma_dedup_sorted(tail);
        if s[0] == s[1] {
            assert(tail[0] == s[1]);
            assert(tail.contains(s[1]));
            assert(s.to_set() =~= tail.to_set()) by {
                assert forall|x: Seq<char>| s.contains(x) implies tail.contains(x) by {
                    let i = choose|i: int| 0 <= i < s.len() && s[i] == x;
                    if i == 0 {
                        assert(tail[0] == s[1]);
                    } else {
                        assert(tail[i - 1] == x);
                    }
                }
                assert forall|x: Seq<char>| tail.contains(x) implies s.contains(x) by {
                    let i = choose|i: int| 0 <= i < tail.len() && tail[i] == x;
                    assert(s[i + 1] == x);
                }
            }
        } else {
            let dt = dedup_sorted(tail);
            assert(d == seq![s[0]] + dt);
            assert forall|i: int, j: int| 0 <= i < j < d.len()
                implies lex_lt(#[trigger] d[i], #[trigger] d[j]) by {
                if i == 0 {
                    let x = d[j];
                    assert(dt[j - 1] == x);
                    assert(dt.contains(x));
                    assert(tail.to_set().contains(x));
                    let k = choose|k: int| 0 <= k < tail.len() && tail[k] == x;
                    assert(s[k + 1] == x);
                    assert(lex_leq_fn()(s[0], s[k + 1]));
                    if s[0] == x {
                        if k == 0 {
                            assert(s[1] == x);
                            assert(false);
                        } else {
                            assert(lex_leq_fn()(s[1], s[k + 1]));
                            assert(lex_le(s[1], s[0]));
                            assert(lex_leq_fn()(s[0], s[1]));
                            lemma_lex_le_antisym(s[0], s[1]);
                            assert(false);
                        }
                    }
                } else {
                    assert(dt[i - 1] == d[i] && dt[j - 1] == d[j]);
                    assert(lex_lt(dt[i - 1], dt[j - 1]));
                }
            }
            assert(d.to_set() =~= s.to_set()) by {
                assert forall|x: Seq<char>| d.contains(x) implies s.contains(x) by {
                    let i = choose|i: int| 0 <= i < d.len() && d[i] == x;
                    if i == 0 {
                        assert(s[0] == x);
                    } else {
                        assert(dt[i - 1] == x);
                        assert(dt.contains(x));
                        assert(tail.to_set().contains(x));
                        let k = choose|k: int| 0 <= k < tail.len() && tail[k] == x;
                        assert(s[k + 1] == x);
                    }
                }
                assert forall|x: Seq<char>| s.contains(x) implies d.contains(x) by {
                    let i = choose|i: int| 0 <= i < s.len() && s[i] == x;
                    if i == 0 {
                        assert(d[0] == x);
                    } else {
                        assert(tail[i - 1] == x);
                        assert(tail.contains(x));
                        assert(dt.to_set().contains(x));
                        let k = choose|k: int| 0 <= k < dt.len() && dt[k] == x;
                        assert(d[k + 1] == x);
                    }
                }
            }
        }
    }
}

/// Two sequences sorted by `lex_le` with the same multiset of elements
/// are the same sequence.
pub proof fn lemma_sorted_unique(a: Seq<Seq<char>>, b: Seq<Seq<char>>)
    requires
        sorted_by(a, lex_leq_fn()),
        sorted_by(b, lex_leq_fn()),
        a.to_multiset() == b.to_multiset(),
    ensures
        a == b,
    decreases a.len(),
{
    broadcast use vstd::seq_lib::group_to_multiset_ensures;

    vstd::seq_lib::to_multiset_len(a);
    vstd::seq_lib::to_multiset_len(b);
    if a.len() == 0 {
        assert(a =~= b);
    } else {
        assert(a.contains(a[0]));
        assert(a.to_multiset().count(a[0]) > 0);
        assert(b.to_multiset().count(a[0]) > 0);
        assert(b.contains(a[0]));
        assert(b.contains(b[0]));
        assert(b.to_multiset().count(b[0]) > 0);
        assert(a.to_multiset().count(b[0]) > 0);
        assert(a.contains(b[0]));
        let i = choose|i: int| 0 <= i < b.len() && b[i] == a[0];
        let j = choose|j: int| 0 <= j < a.len() && a[j] == b[0];
        assert(a[0] == b[0]) by {
            if i > 0 {
                assert(lex_leq_fn()(b[0], b[i]));
            } else {
                lemma_lex_le_refl(a[0], 0);
            }
            if j > 0 {
                assert(lex_leq_fn()(a[0], a[j]));
            } else {
                lemma_lex_le_refl(b[0], 0);
            }
            lemma_lex_le_antisym(a[0], b[0]);
        }
        let at = a.drop_first();
        let bt = b.drop_first();
        assert(a.remove(0) =~= at);
        assert(b.remove(0) =~= bt);
        vstd::seq_lib::to_multiset_remove(a, 0);
        vstd::seq_lib::to_multiset_remove(b, 0);
        assert(at.to_multiset() == bt.to_multiset());
        assert forall|p: int, q: int| 0 <= p < q < at.len()
            implies lex_leq_fn()(#[trigger] at[p], #[trigger] at[q]) by {
            assert(lex_leq_fn()(a[p + 1], a[q + 1]));
        }
        assert forall|p: int, q: int| 0 <= p < q < bt.len()
            implies lex_leq_fn()(#[trigger] bt[p], #[trigger] bt[q]) by {
            assert(lex_leq_fn()(b[p + 1], b[q + 1]));
        }
        lemma_sorted_unique(at, bt);
        assert forall|k: int| 0 <= k < a.len() implies a[k] == b[k] by {
            if k > 0 {
                assert(at[k - 1] == a[k]);
                assert(bt[k - 1] == b[k]);
            }
        }
        assert(a =~= b);
    }
}

/// Two strictly sorted sequences with the same set of elements are the
/// same sequence.
pub proof fn lemma_strictly_sorted_unique(a: Seq<Seq<char>>, b: Seq<Seq<char>>)
    requires
        strictly_sorted(a),
        strictly_sorted(b),
        a.to_set() == b.to_set(),
    ensures
        a == b,
{
    lemma_strict_no_duplicates(a);
    lemma_strict_no_duplicates(b);
    lemma_no_dup_same_set_same_multiset(a, b);
    assert forall|i: int, j: int| 0 <= i < j < a.len()
        implies lex_leq_fn()(#[trigger] a[i], #[trigger] a[j]) by {
        assert(lex_lt(a[i], a[j]));
    }
    assert forall|i: int, j: int| 0 <= i < j < b.len()
        implies lex_leq_fn()(#[trigger] b[i], #[trigger] b[j]) by {
        assert(lex_lt(b[i], b[j]));
    }
    lemma_sorted_unique(a, b);
}

/// A strictly sorted sequence has no duplicates.
pub proof fn lemma_strict_no_duplicates(a: Seq<Seq<char>>)
    requires
        strictly_sorted(a),
    ensures
        a.no_duplicates(),
{
    assert forall|i: int, j: int|
        0 <= i < a.len() && 0 <= j < a.len() && i != j implies a[i] != a[j] by {
        if i < j {
            assert(lex_lt(a[i], a[j]));
        } else {
            assert(lex_lt(a[j], a[i]));
        }
    }
}

/// Two duplicate-free sequences over the same set have the same multiset.
proof fn lemma_no_dup_same_set_same_multiset(a: Seq<Seq<char>>, b: Seq<Seq<char>>)
    requires
        a.no_duplicates(),
        b.no_duplicates(),
        a.to_set() == b.to_set(),
    ensures
        a.to_multiset() == b.to_multiset(),
{
    broadcast use vstd::seq_lib::group_to_multiset_ensures;

    a.lemma_multiset_has_no_duplicates();
    b.lemma_multiset_has_no_duplicates();
    assert forall|x: Seq<char>| true implies a.to_multiset().count(x) == b.to_multiset().count(
        x,
    ) by {
        assert(a.contains(x) <==> a.to_set().contains(x));
        assert(b.contains(x) <==> b.to_set().contains(x));
        if a.contains(x) {
            assert(a.to_multiset().count(x) > 0);
            assert(b.to_multiset().count(x) > 0);
            assert(a.to_multiset().count(x) <= 1);
            assert(b.to_multiset().count(x) <= 1);
        } else {
            assert(a.to_multiset().count(x) == 0);
            assert(b.to_multiset().count(x) == 0);
        }
    }
    assert(a.to_multiset() =~= b.to_multiset());
}


/// Multiset-equal sequences have equal element sets.
proof fn lemma_multiset_eq_set_eq(a: Seq<Seq<char>>, b: Seq<Seq<char>>)
    requires
        a.to_multiset() == b.to_multiset(),
    ensures
        a.to_set() == b.to_set(),
{
    broadcast use vstd::seq_lib::group_to_multiset_ensures;

    assert forall|x: Seq<char>| true implies (a.to_set().contains(x) == b.to_set().contains(
        x,
    )) by {
        assert(a.contains(x) <==> a.to_multiset().count(x) > 0);
        assert(b.contains(x) <==> b.to_multiset().count(x) > 0);
    }
    assert(a.to_set() =~= b.to_set());
}

/// Decides whether some string of `v` has the character sequence `s@`.
fn contains_string(v: &Vec<String>, s: &str) -> (r: bool)
    ensures
        r == views_of(v@).contains(s@),
{
    let mut i: usize = 0;
    while i < v.len()
        invariant
            i <= v@.len(),
            forall|j: int| 0 <= j < i ==> (#[trigger] v@[j]@) != s@,
        decreases v@.len() - i,
    {
        if crate::strings::str_eq(v[i].as_str(), s) {
            proof {
                assert(views_of(v@)[i as int] == s@);
            }
            return true;
        }
        i = i + 1;
    }
    proof {
        assert forall|j: int| 0 <= j < views_of(v@).len() implies views_of(v@)[j] != s@ by {
            assert(v@[j]@ != s@);
        }
    }
    false
}

/// Collects each surviving item name once, in first-occurrence order.
fn collect_names(entries: &Vec<FlatEntry>, ignored: &Vec<String>) -> (r: Vec<String>)
    ensures
        views_of(r@).no_duplicates(),
        views_of(r@).to_set() == surviving_names(entry_views(entries@), views_of(ignored@)).to_set(),
{
    let ghost all = entry_views(entries@);
    let ghost ig = views_of(ignored@);
    let mut names: Vec<String> = Vec::new();
    let mut k: usize = 0;
    proof {
        assert(all.take(0) =~= Seq::<EntryModel>::empty());
        assert(surviving_names(all.take(0), ig) =~= Seq::<Seq<char>>::empty()) by {
            reveal(Seq::filter);
            assert(all.take(0).map_values(item_of_fn()) =~= Seq::<Seq<char>>::empty());
        }
        assert(views_of(names@) =~= Seq::<Seq<char>>::empty());
        assert(views_of(names@).to_set() =~= surviving_names(all.take(0), ig).to_set());
    }
    while k < entries.len()
        invariant
            k <= entries@.len(),
            all == entry_views(entries@),
            ig == views_of(ignored@),
            views_of(names@).no_duplicates(),
            views_of(names@).to_set() == surviving_names(all.take(k as int), ig).to_set(),
        decreases entries@.len() - k,
    {
        let item = &entries[k].item;
        let ghost pre = views_of(names@);
        let in_ignore = contains_string(ignored, item.as_str());
        let mut added = false;
        if !in_ignore {
            if !contains_string(&names, item.as_str()) {
                names.push(item.clone());
                added = true;
                proof {
                    assert(views_of(names@) =~= pre.push(item@));
                    assert forall|i: int, j: int|
                        0 <= i < views_of(names@).len() && 0 <= j < views_of(names@).len() && i
                            != j implies (#[trigger] views_of(names@)[i]) != (
                    #[trigger] views_of(names@)[j]) by {
                        if i < views_of(names@).len() - 1 && j < views_of(names@).len() - 1 {
                            assert(pre[i] != pre[j]);
                        } else if i == views_of(names@).len() - 1 {
                            assert(!pre.contains(views_of(names@)[i]));
                        } else {
                            assert(!pre.contains(views_of(names@)[j]));
                        }
                    }
                }
            }
        }
        proof {
            let ghost x = all[k as int].item;
            assert(x == item@);
            let mapped_pre = all.take(k as int).map_values(item_of_fn());
            let mapped_post = all.take(k + 1).map_values(item_of_fn());
            assert(mapped_post =~= mapped_pre.push(x));
            assert(mapped_pre.push(x) =~= mapped_pre + seq![x]);
            Seq::filter_distributes_over_add(mapped_pre, seq![x], keep_fn(ig));
            assert(seq![x].filter(keep_fn(ig)) =~= if !ig.contains(x) {
                seq![x]
            } else {
                Seq::<Seq<char>>::empty()
            }) by {
                reveal_with_fuel(Seq::filter, 3);
                assert(seq![x].drop_last() =~= Seq::<Seq<char>>::empty());
                assert(seq![x].last() == x);
                assert(Seq::<Seq<char>>::empty().filter(keep_fn(ig)) =~= Seq::<Seq<char>>::empty());
                if !ig.contains(x) {
                    assert(keep_fn(ig)(x));
                    assert(Seq::<Seq<char>>::empty().push(x) =~= seq![x]);
                }
            }
            let sv_pre = surviving_names(all.take(k as int), ig);
            let sv_post = surviving_names(all.take(k + 1), ig);
            if !ig.contains(x) {
                assert(sv_post == sv_pre + seq![x]);
                assert(sv_post.to_set() =~= sv_pre.to_set().insert(x)) by {
                    assert forall|y: Seq<char>| sv_post.contains(y) implies sv_pre.contains(y) || y
                        == x by {
                        let i = choose|i: int| 0 <= i < sv_post.len() && sv_post[i] == y;
                        if i < sv_pre.len() {
                            assert(sv_pre[i] == y);
                        }
                    }
                    assert forall|y: Seq<char>| sv_pre.contains(y) implies sv_post.contains(y) by {
                        let i = choose|i: int| 0 <= i < sv_pre.len() && sv_pre[i] == y;
                        assert(sv_post[i] == y);
                    }
                    assert(sv_post[sv_post.len() - 1] == x);
                }
                if added {
                    assert(views_of(names@) =~= pre.push(x));
                    assert(views_of(names@).to_set() =~= pre.to_set().insert(x)) by {
                        assert forall|y: Seq<char>| views_of(names@).contains(y) implies
                            pre.contains(y) || y == x by {
                            let i = choose|i: int|
                                0 <= i < views_of(names@).len() && views_of(names@)[i] == y;
                            if i < pre.len() {
                                assert(pre[i] == y);
                            }
                        }
                        assert forall|y: Seq<char>| pre.contains(y) implies views_of(
                            names@,
                        ).contains(y) by {
                            let i = choose|i: int| 0 <= i < pre.len() && pre[i] == y;
                            assert(views_of(names@)[i] == y);
                        }
                        assert(views_of(names@)[pre.len() as int] == x);
                    }
                } else {
                    assert(pre.contains(x));
                    assert(pre.to_set().insert(x) =~= pre.to_set());
                }
            } else {
                assert(sv_post =~= sv_pre);
            }
        }
        k = k + 1;
    }
    proof {
        assert(all.take(entries@.len() as int) =~= all);
    }
    names
}

/// Renders the report line of one placement.
pub fn render_line(e: &FlatEntry) -> (s: String)
    ensures
        s@ == entry_line(e@),
{
    let mut s = String::from_str("    Player ");
    let num = crate::strings::u32_to_decimal(e.player);
    s.append(num.as_str());
    s.append(" -> ");
    s.append(e.world.as_str());
    s.append(": ");
    s.append(e.location.as_str());
    proof {
        assert(s@ =~= entry_line(e@));
    }
    s
}

/// Renders one item's block: the name line, then that item's placement
/// lines sorted on their rendered text.
fn render_block(entries: &Vec<FlatEntry>, name: &String) -> (b: Vec<String>)
    ensures
        views_of(b@) == item_block(entry_views(entries@), name@),
{
    let ghost all = entry_views(entries@);
    let mut ls: Vec<String> = Vec::new();
    let mut k: usize = 0;
    proof {
        assert(all.take(0) =~= Seq::<EntryModel>::empty());
        assert(views_of(ls@) =~= all.take(0).filter(has_item_fn(name@)).map_values(line_fn())) by {
            reveal(Seq::filter);
        }
    }
    while k < entries.len()
        invariant
            k <= entries@.len(),
            all == entry_views(entries@),
            views_of(ls@) == all.take(k as int).filter(has_item_fn(name@)).map_values(line_fn()),
        decreases entries@.len() - k,
    {
        let ghost pre = views_of(ls@);
        let ghost e = all[k as int];
        let hit = crate::strings::str_eq(entries[k].item.as_str(), name.as_str());
        if hit {
            let line = render_line(&entries[k]);
            ls.push(line);
            proof {
                assert(views_of(ls@) =~= pre.push(entry_line(e)));
            }
        }
        proof {
            let fpre = all.take(k as int).filter(has_item_fn(name@));
            assert(all.take(k + 1) =~= all.take(k as int) + seq![e]);
            Seq::filter_distributes_over_add(all.take(k as int), seq![e], has_item_fn(name@));
            assert(seq![e].filter(has_item_fn(name@)) =~= if e.item == name@ {
                seq![e]
            } else {
                Seq::<EntryModel>::empty()
            }) by {
                reveal_with_fuel(Seq::filter, 3);
                assert(seq![e].drop_last() =~= Seq::<EntryModel>::empty());
                assert(seq![e].last() == e);
                assert(Seq::<EntryModel>::empty().filter(has_item_fn(name@)) =~= Seq::<
                    EntryModel,
                >::empty());
                if e.item == name@ {
                    assert(has_item_fn(name@)(e));
                    assert(Seq::<EntryModel>::empty().push(e) =~= seq![e]);
                }
            }
            let fpost = all.take(k + 1).filter(has_item_fn(name@));
            if e.item == name@ {
                assert(fpost == fpre + seq![e]);
                assert(fpost.map_values(line_fn()) =~= fpre.map_values(line_fn()).push(
                    entry_line(e),
                ));
            } else {
                assert(fpost =~= fpre);
            }
        }
        k = k + 1;
    }
    proof {
        assert(all.take(entries@.len() as int) =~= all);
    }
    let sorted = crate::strings::sort_strings(ls);
    proof {
        lemma_lex_total_ordering();
        let f = rendered_lines(all, name@);
        f.lemma_sort_by_ensures(lex_leq_fn());
        lemma_sorted_unique(views_of(sorted@), f.sort_by(lex_leq_fn()));
    }
    let mut b: Vec<String> = Vec::new();
    b.push(name.clone());
    let mut rest = sorted;
    b.append(&mut rest);
    proof {
        assert(views_of(b@) =~= item_block(all, name@));
    }
    b
}

/// Joins the rendered lines with single newlines, without a trailing
/// newline.
fn join_with_newlines(lines: &Vec<String>) -> (r: String)
    ensures
        r@ == join_lines(views_of(lines@)),
{
    let ghost vs = views_of(lines@);
    let mut s = String::new();
    let mut i: usize = 0;
    proof {
        assert(vs.take(0) =~= Seq::<Seq<char>>::empty());
    }
    while i < lines.len()
        invariant
            i <= lines@.len(),
            vs == views_of(lines@),
            s@ == join_lines(vs.take(i as int)),
        decreases lines@.len() - i,
    {
        if i > 0 {
            s.append("\n");
        }
        s.append(lines[i].as_str());
        proof {
            reveal_strlit("\n");
            assert("\n"@ =~= seq!['\n']);
            let t = vs.take(i + 1);
            assert(t.drop_last() =~= vs.take(i as int));
            assert(t.last() == vs[i as int]);
            if i == 0 {
                assert(s@ =~= join_lines(t));
            } else {
                assert(s@ =~= join_lines(t));
            }
        }
        i = i + 1;
    }
    proof {
        assert(vs.take(lines@.len() as int) =~= vs);
    }
    s
}

/// Renders the full report for a validated document: placements grouped
/// by item name, ignored items removed, item names in ascending
/// code-point order, and each item's lines sorted on their rendered
/// text, joined by single newlines with no trailing newline.
pub fn generate_report(doc: &SpoilerDocument, ignored: &Vec<String>) -> (r: String)
    ensures
        r@ == spec_report(doc_entries(*doc), views_of(ignored@)),
{
    broadcast use vstd::seq_lib::group_to_multiset_ensures;

    let entries = flatten_document(doc);
    let ghost all = entry_views(entries@);
    let ghost ig = views_of(ignored@);
    let names = collect_names(&entries, ignored);
    let ghost names_pre = views_of(names@);
    let sorted_names = crate::strings::sort_strings(names);
    let ghost sn = views_of(sorted_names@);
    proof {
        lemma_lex_total_ordering();
        let sv = surviving_names(all, ig);
        sv.lemma_sort_by_ensures(lex_leq_fn());
        lemma_dedup_sorted(sv.sort_by(lex_leq_fn()));
        // the exec names match the specified headings
        names_pre.lemma_multiset_has_no_duplicates();
        sn.lemma_multiset_has_no_duplicates_conv();
        lemma_multiset_eq_set_eq(sn, names_pre);
        lemma_multiset_eq_set_eq(sv.sort_by(lex_leq_fn()), sv);
        assert forall|i: int, j: int| 0 <= i < j < sn.len() implies lex_lt(
            #[trigger] sn[i],
            #[trigger] sn[j],
        ) by {
            assert(lex_leq_fn()(sn[i], sn[j]));
            assert(sn[i] != sn[j]);
        }
        lemma_strictly_sorted_unique(sn, report_names(all, ig));
    }
    let mut lines: Vec<String> = Vec::new();
    let mut i: usize = 0;
    proof {
        assert(report_names(all, ig).take(0) =~= Seq::<Seq<char>>::empty());
        assert(views_of(lines@) =~= report_names(all, ig).take(0).flat_map(block_fn(all)));
    }
    while i < sorted_names.len()
        invariant
            i <= sorted_names@.len(),
            all == entry_views(entries@),
            ig == views_of(ignored@),
            sn == views_of(sorted_names@),
            sn == report_names(all, ig),
            views_of(lines@) == report_names(all, ig).take(i as int).flat_map(block_fn(all)),
        decreases sorted_names@.len() - i,
    {
        let ghost pre = views_of(lines@);
        let mut block = render_block(&entries, &sorted_names[i]);
        let ghost bv = views_of(block@);
        lines.append(&mut block);
        proof {
            assert(views_of(lines@) =~= pre + bv);
            assert(bv == item_block(all, sn[i as int]));
            assert(block_fn(all)(report_names(all, ig)[i as int]) == item_block(
                all,
                sn[i as int],
            ));
            report_names(all, ig).lemma_flat_map_take_append(block_fn(all), i as int);
            assert(views_of(lines@) =~= report_names(all, ig).take(i + 1).flat_map(
                block_fn(all),
            ));
        }
        i = i + 1;
    }
    proof {
        assert(report_names(all, ig).take(report_names(all, ig).len() as int) =~= report_names(
            all,
            ig,
        ));
        assert(views_of(lines@) == report_lines(all, ig));
    }
    join_with_newlines(&lines)
}



/// A report with no surviving placements is the empty string: this
/// covers a document with no placements at all and one whose
/// placements are all ignored.
pub proof fn lemma_report_empty(entries: Seq<EntryModel>, ignore: Seq<Seq<char>>)
    requires
        surviving_names(entries, ignore).len() == 0,
    ensures
        spec_report(entries, ignore) == Seq::<char>::empty(),
{
    let sv = surviving_names(entries, ignore);
    lemma_lex_total_ordering();
    sv.lemma_sort_by_ensures(lex_leq_fn());
    vstd::seq_lib::to_multiset_len(sv);
    vstd::seq_lib::to_multiset_len(sv.sort_by(lex_leq_fn()));
    assert(sv.sort_by(lex_leq_fn()).len() == 0);
    assert(report_names(entries, ignore).len() == 0);
    assert(report_names(entries, ignore) =~= Seq::<Seq<char>>::empty());
    assert(report_lines(entries, ignore) =~= Seq::<Seq<char>>::empty()) by {
        let rn = report_names(entries, ignore);
        assert(rn.map_values(block_fn(entries)) =~= Seq::<Seq<Seq<char>>>::empty());
        assert(Seq::<Seq<Seq<char>>>::empty().flatten() =~= Seq::<Seq<char>>::empty());
    }
    assert(spec_report(entries, ignore) =~= Seq::<char>::empty());
}

/// A document with zero placements yields the empty report.
pub proof fn lemma_report_empty_no_placements(entries: Seq<EntryModel>, ignore: Seq<Seq<char>>)
    requires
        entries.len() == 0,
    ensures
        spec_report(entries, ignore) == Seq::<char>::empty(),
{
    assert(surviving_names(entries, ignore).len() == 0) by {
        reveal(Seq::filter);
        assert(entries.map_values(item_of_fn()) =~= Seq::<Seq<char>>::empty());
    }
    lemma_report_empty(entries, ignore);
}

/// An item name heads a block of the report exactly when some
/// placement carries that name and the name is not ignored.
pub proof fn lemma_report_names_exact(entries: Seq<EntryModel>, ignore: Seq<Seq<char>>)
    ensures
        forall|n: Seq<char>|
            #[trigger] report_names(entries, ignore).contains(n) <==> ((exists|i: int|
                0 <= i < entries.len() && (#[trigger] entries[i]).item == n) && !ignore.contains(
                n,
            )),
{
    let mapped = entries.map_values(item_of_fn());
    let sv = surviving_names(entries, ignore);
    lemma_lex_total_ordering();
    sv.lemma_sort_by_ensures(lex_leq_fn());
    lemma_dedup_sorted(sv.sort_by(lex_leq_fn()));
    lemma_multiset_eq_set_eq(sv.sort_by(lex_leq_fn()), sv);
    lemma_filter_membership(mapped, keep_fn(ignore));
    assert forall|n: Seq<char>| true implies (#[trigger] report_names(entries, ignore).contains(n)
        <==> ((exists|i: int| 0 <= i < entries.len() && (#[trigger] entries[i]).item == n)
        && !ignore.contains(n))) by {
        assert(report_names(entries, ignore).contains(n) <==> report_names(
            entries,
            ignore,
        ).to_set().contains(n));
        assert(sv.contains(n) <==> sv.to_set().contains(n));
        assert(mapped.contains(n) <==> (exists|i: int|
            0 <= i < entries.len() && (#[trigger] entries[i]).item == n)) by {
            if mapped.contains(n) {
                let i = choose|i: int| 0 <= i < mapped.len() && mapped[i] == n;
                assert(entries[i].item == n);
            }
            if exists|i: int| 0 <= i < entries.len() && (#[trigger] entries[i]).item == n {
                let i = choose|i: int| 0 <= i < entries.len() && entries[i].item == n;
                assert(mapped[i] == n);
                assert(mapped.contains(n));
            }
        }
    }
}

/// The item-name headings of the report are strictly ascending in
/// code-point order across the whole report.
pub proof fn lemma_report_names_strictly_sorted(entries: Seq<EntryModel>, ignore: Seq<Seq<char>>)
    ensures
        strictly_sorted(report_names(entries, ignore)),
{
    let sv = surviving_names(entries, ignore);
    lemma_lex_total_ordering();
    sv.lemma_sort_by_ensures(lex_leq_fn());
    lemma_dedup_sorted(sv.sort_by(lex_leq_fn()));
}

/// Each surviving item name heads exactly one block of the report.
pub proof fn lemma_report_names_no_duplicates(entries: Seq<EntryModel>, ignore: Seq<Seq<char>>)
    ensures
        report_names(entries, ignore).no_duplicates(),
{
    lemma_report_names_strictly_sorted(entries, ignore);
    lemma_strict_no_duplicates(report_names(entries, ignore));
}

/// Within one item's block the location lines are ascending in
/// code-point order of their fully rendered text.
pub proof fn lemma_item_lines_sorted(entries: Seq<EntryModel>, name: Seq<char>)
    ensures
        sorted_by(item_lines(entries, name), lex_leq_fn()),
{
    lemma_lex_total_ordering();
    rendered_lines(entries, name).lemma_sort_by_ensures(lex_leq_fn());
}

/// The sorted lines of one item's block are exactly the rendered
/// lines of that item's placements, as multisets.
pub open spec fn block_lists_every_placement(entries: Seq<EntryModel>, name: Seq<char>) -> bool {
    item_lines(entries, name).to_multiset() == rendered_lines(entries, name).to_multiset()
}

/// One item's block lists the rendered line of every placement of that
/// item, exactly once per placement.
pub proof fn lemma_item_lines_complete(entries: Seq<EntryModel>, name: Seq<char>)
    ensures
        block_lists_every_placement(entries, name),
{
    lemma_lex_total_ordering();
    rendered_lines(entries, name).lemma_sort_by_ensures(lex_leq_fn());
}


} // verus!
