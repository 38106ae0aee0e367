//! Ranking of what was sold, by name.
//!
//! Sales are counted under the name that each line carries, so items that
//! share a name are counted together. A count that does not fit 64 bits is
//! reported as the largest 64-bit number. Names are ranked by their reported
//! count, larger first; among equal counts, the name that was sold first
//! comes first.
//!
//! The tally is a list of names that is searched for every line, and each
//! place of the ranking is found by one pass over the tally, so the cost is
//! the number of names times the number of lines plus places asked for.

use vstd::prelude::*;

use crate::sale::{SaleItemView, SaleRecord, SaleRecordView};
use crate::views::lemma_deep_view_push;

verus! {

/// The lines of all the records, in the order of the ledger.
pub open spec fn all_lines(records: Seq<SaleRecordView>) -> Seq<SaleItemView>
    decreases records.len(),
{
    if records.len() == 0 {
        Seq::empty()
    } else {
        all_lines(records.drop_last()) + records.last().items
    }
}

/// The units sold under `name`, over all the lines.
pub open spec fn units_sold(lines: Seq<SaleItemView>, name: Seq<char>) -> nat
    decreases lines.len(),
{
    if lines.len() == 0 {
        0
    } else {
        units_sold(lines.drop_last(), name) + if lines.last().name == name {
            lines.last().quantity
        } else {
            0
        }
    }
}

/// Whether some line carries `name`.
pub open spec fn sold_at_all(lines: Seq<SaleItemView>, name: Seq<char>) -> bool {
    exists|i: int| 0 <= i < lines.len() && (#[trigger] lines[i]).name == name
}

/// Whether line `i` is the first that carries `name`.
pub open spec fn is_first_sale(lines: Seq<SaleItemView>, name: Seq<char>, i: int) -> bool {
    &&& 0 <= i < lines.len()
    &&& lines[i].name == name
    &&& forall|j: int| 0 <= j < i ==> (#[trigger] lines[j]).name != name
}

/// The first line that carries `name`, if there is one.
pub open spec fn first_sale(lines: Seq<SaleItemView>, name: Seq<char>) -> int {
    choose|i: int| is_first_sale(lines, name, i)
}

/// A count as it is reported: itself, or the largest 64-bit number if it does
/// not fit.
pub open spec fn reported(total: nat) -> u64 {
    if total > u64::MAX {
        u64::MAX
    } else {
        total as u64
    }
}

/// Whether `a` ranks before `b`: it has the larger reported count, or the
/// same count and an earlier first sale.
pub open spec fn outsells(lines: Seq<SaleItemView>, a: Seq<char>, b: Seq<char>) -> bool {
    let sold_a = reported(units_sold(lines, a));
    let sold_b = reported(units_sold(lines, b));
    sold_a > sold_b || (sold_a == sold_b && first_sale(lines, a) < first_sale(lines, b))
}

/// Whether `name` stands in the ranking.
pub open spec fn listed(top: Seq<(Seq<char>, u64)>, name: Seq<char>) -> bool {
    exists|i: int| 0 <= i < top.len() && (#[trigger] top[i]).0 == name
}

/// Whether `top` is the ranking of the first `n` names: at most `n` entries,
/// each a name that was sold with its reported count, in ranking order, and
/// no name left out unless the ranking is full and every entry ranks before
/// it.
pub open spec fn is_top_selling(
    lines: Seq<SaleItemView>,
    n: nat,
    top: Seq<(Seq<char>, u64)>,
) -> bool {
    &&& top.len() <= n
    &&& forall|i: int|
        0 <= i < top.len() ==> {
            &&& sold_at_all(lines, (#[trigger] top[i]).0)
            &&& top[i].1 == reported(units_sold(lines, top[i].0))
        }
    &&& forall|i: int, j: int|
        0 <= i < j < top.len() ==> outsells(lines, (#[trigger] top[i]).0, (#[trigger] top[j]).0)
    &&& forall|name: Seq<char>| #[trigger]
        sold_at_all(lines, name) ==> listed(top, name) || (top.len() == n && forall|i: int|
            0 <= i < top.len() ==> outsells(lines, (#[trigger] top[i]).0, name))
}

/// Whether `name` is one of `names`.
spec fn among(names: Seq<Seq<char>>, name: Seq<char>) -> bool {
    exists|t: int| 0 <= t < names.len() && #[trigger] names[t] == name
}

/// Whether `names` and `counts` are the tally of the lines: every name that
/// was sold, once, in the order of first sale, each with its reported count.
spec fn is_tally(
    lines: Seq<SaleItemView>,
    names: Seq<Seq<char>>,
    counts: Seq<u64>,
) -> bool {
    &&& names.len() == counts.len()
    &&& forall|t: int|
        0 <= t < names.len() ==> {
            &&& sold_at_all(lines, #[trigger] names[t])
            &&& counts[t] == reported(units_sold(lines, names[t]))
        }
    &&& forall|s: int, t: int|
        0 <= s < t < names.len() ==> first_sale(lines, #[trigger] names[s]) < first_sale(
            lines,
            #[trigger] names[t],
        )
    &&& forall|i: int| 0 <= i < lines.len() ==> among(names, (#[trigger] lines[i]).name)
}

/// The tally while it is built: as [`is_tally`], with the place of each
/// name's first sale written down.
spec fn tallied(
    seen: Seq<SaleItemView>,
    names: Seq<Seq<char>>,
    counts: Seq<u64>,
    firsts: Seq<int>,
) -> bool {
    &&& names.len() == counts.len() == firsts.len()
    &&& forall|t: int|
        0 <= t < names.len() ==> {
            &&& is_first_sale(seen, #[trigger] names[t], firsts[t])
            &&& counts[t] == reported(units_sold(seen, names[t]))
        }
    &&& forall|s: int, t: int|
        0 <= s < t < names.len() ==> #[trigger] firsts[s] < #[trigger] firsts[t]
    &&& forall|s: int, t: int|
        0 <= s < t < names.len() ==> #[trigger] names[s] != #[trigger] names[t]
    &&& forall|i: int| 0 <= i < seen.len() ==> among(names, (#[trigger] seen[i]).name)
}

/// A name has one first sale.
proof fn lemma_first_sale(lines: Seq<SaleItemView>, name: Seq<char>, i: int)
    requires
        is_first_sale(lines, name, i),
    ensures
        first_sale(lines, name) == i,
        sold_at_all(lines, name),
{
    let j = first_sale(lines, name);
    assert(is_first_sale(lines, name, j));
    if j < i {
        assert(lines[j].name != name);
    } else if i < j {
        assert(lines[i].name != name);
    }
}

/// Nothing was sold under a name that no line carries.
proof fn lemma_unsold(lines: Seq<SaleItemView>, name: Seq<char>)
    requires
        forall|i: int| 0 <= i < lines.len() ==> (#[trigger] lines[i]).name != name,
    ensures
        units_sold(lines, name) == 0,
    decreases lines.len(),
{
    if lines.len() > 0 {
        let front = lines.drop_last();
        assert forall|i: int| 0 <= i < front.len() implies (#[trigger] front[i]).name != name by {
            assert(front[i] == lines[i]);
        }
        lemma_unsold(front, name);
        assert(lines.last() == lines[lines.len() - 1]);
    }
}

/// The tally after one more line whose name is already in it, at `t`.
proof fn lemma_tallied_again(
    seen: Seq<SaleItemView>,
    names: Seq<Seq<char>>,
    counts: Seq<u64>,
    firsts: Seq<int>,
    line: SaleItemView,
    at: int,
)
    requires
        tallied(seen, names, counts, firsts),
        0 <= at < names.len(),
        names[at] == line.name,
        line.quantity <= u64::MAX,
    ensures
        tallied(
            seen.push(line),
            names,
            counts.update(at, reported((counts[at] + line.quantity) as nat)),
            firsts,
        ),
{
    let after = seen.push(line);
    let new_counts = counts.update(at, reported((counts[at] + line.quantity) as nat));
    assert(after.drop_last() =~= seen);
    assert forall|t: int| 0 <= t < names.len() implies {
        &&& is_first_sale(after, #[trigger] names[t], firsts[t])
        &&& new_counts[t] == reported(units_sold(after, names[t]))
    } by {
        assert(is_first_sale(seen, names[t], firsts[t]));
        assert(after[firsts[t]] == seen[firsts[t]]);
        assert forall|j: int| 0 <= j < firsts[t] implies (#[trigger] after[j]).name
            != names[t] by {
            assert(after[j] == seen[j]);
        }
        if t != at {
            if t < at {
                assert(names[t] != names[at]);
            } else {
                assert(names[at] != names[t]);
            }
        }
    }
    assert forall|i: int| 0 <= i < after.len() implies among(names, (#[trigger] after[i]).name) by {
        if i < seen.len() {
            assert(after[i] == seen[i]);
            assert(among(names, seen[i].name));
        } else {
            assert(names[at] == after[i].name);
        }
    }
}

/// The tally after one more line whose name is new to it.
proof fn lemma_tallied_new(
    seen: Seq<SaleItemView>,
    names: Seq<Seq<char>>,
    counts: Seq<u64>,
    firsts: Seq<int>,
    line: SaleItemView,
)
    requires
        tallied(seen, names, counts, firsts),
        forall|t: int| 0 <= t < names.len() ==> #[trigger] names[t] != line.name,
        line.quantity <= u64::MAX,
    ensures
        tallied(
            seen.push(line),
            names.push(line.name),
            counts.push(line.quantity as u64),
            firsts.push(seen.len() as int),
        ),
{
    let after = seen.push(line);
    let new_names = names.push(line.name);
    let new_counts = counts.push(line.quantity as u64);
    let new_firsts = firsts.push(seen.len() as int);
    assert(after.drop_last() =~= seen);
    assert forall|i: int| 0 <= i < seen.len() implies (#[trigger] seen[i]).name != line.name by {
        assert(among(names, seen[i].name));
    }
    lemma_unsold(seen, line.name);
    assert forall|t: int| 0 <= t < new_names.len() implies {
        &&& is_first_sale(after, #[trigger] new_names[t], new_firsts[t])
        &&& new_counts[t] == reported(units_sold(after, new_names[t]))
    } by {
        if t < names.len() {
            assert(new_names[t] == names[t]);
            assert(is_first_sale(seen, names[t], firsts[t]));
            assert(after[firsts[t]] == seen[firsts[t]]);
            assert forall|j: int| 0 <= j < firsts[t] implies (#[trigger] after[j]).name
                != names[t] by {
                assert(after[j] == seen[j]);
            }
        } else {
            assert forall|j: int| 0 <= j < seen.len() implies (#[trigger] after[j]).name
                != line.name by {
                assert(after[j] == seen[j]);
            }
        }
    }
    assert forall|s: int, t: int| 0 <= s < t < new_names.len() implies #[trigger] new_firsts[s]
        < #[trigger] new_firsts[t] by {
        assert(is_first_sale(seen, names[s], firsts[s]));
        if t < names.len() {
            assert(firsts[s] < firsts[t]);
        }
    }
    assert forall|s: int, t: int| 0 <= s < t < new_names.len() implies #[trigger] new_names[s]
        != #[trigger] new_names[t] by {
        if t < names.len() {
            assert(names[s] != names[t]);
        } else {
            assert(names[s] != line.name);
        }
    }
    assert forall|i: int| 0 <= i < after.len() implies among(
        new_names,
        (#[trigger] after[i]).name,
    ) by {
        if i < seen.len() {
            assert(after[i] == seen[i]);
            assert(among(names, seen[i].name));
            let t = choose|t: int| 0 <= t < names.len() && #[trigger] names[t] == seen[i].name;
            assert(new_names[t] == after[i].name);
        } else {
            assert(new_names[names.len() as int] == after[i].name);
        }
    }
}

/// A finished tally, without the places written down.
proof fn lemma_tallied_done(
    seen: Seq<SaleItemView>,
    names: Seq<Seq<char>>,
    counts: Seq<u64>,
    firsts: Seq<int>,
)
    requires
        tallied(seen, names, counts, firsts),
    ensures
        is_tally(seen, names, counts),
{
    assert forall|t: int| 0 <= t < names.len() implies {
        &&& sold_at_all(seen, #[trigger] names[t])
        &&& first_sale(seen, names[t]) == firsts[t]
        &&& counts[t] == reported(units_sold(seen, names[t]))
    } by {
        lemma_first_sale(seen, names[t], firsts[t]);
    }
    assert forall|s: int, t: int| 0 <= s < t < names.len() implies first_sale(
        seen,
        #[trigger] names[s],
    ) < first_sale(seen, #[trigger] names[t]) by {
        assert(firsts[s] < firsts[t]);
    }
}

/// The place of `name` among `names`.
fn find_name(names: &Vec<String>, name: &String) -> (place: Option<usize>)
    ensures
        match place {
            Some(t) => t < names@.len() && names.deep_view()[t as int] == name@,
            None => forall|t: int|
                0 <= t < names@.len() ==> #[trigger] names.deep_view()[t] != name@,
        },
{
    let mut t: usize = 0;
    while t < names.len()
        invariant
            t <= names@.len(),
            forall|s: int| 0 <= s < t ==> #[trigger] names.deep_view()[s] != name@,
        decreases names@.len() - t,
    {
        if names[t].eq(name) {
            return Some(t);
        }
        t += 1;
    }
    None
}

/// Counts the lines of the records by name.
fn tally_sales(records: &Vec<SaleRecord>) -> (tally: (Vec<String>, Vec<u64>))
    ensures
        is_tally(all_lines(records.deep_view()), tally.0.deep_view(), tally.1@),
{
    let mut names: Vec<String> = Vec::new();
    let mut counts: Vec<u64> = Vec::new();
    let ghost mut seen: Seq<SaleItemView> = Seq::empty();
    let ghost mut firsts: Seq<int> = Seq::empty();
    proof {
        assert(names.deep_view() =~= Seq::empty());
        assert(records.deep_view().take(0) =~= Seq::empty());
    }
    let mut r: usize = 0;
    while r < records.len()
        invariant
            r <= records@.len(),
            seen == all_lines(records.deep_view().take(r as int)),
            tallied(seen, names.deep_view(), counts@, firsts),
        decreases records@.len() - r,
    {
        let record = &records[r];
        let ghost start = seen;
        let mut l: usize = 0;
        while l < record.items.len()
            invariant
                l <= record.items@.len(),
                seen == start + record@.items.take(l as int),
                tallied(seen, names.deep_view(), counts@, firsts),
            decreases record.items@.len() - l,
        {
            let line = &record.items[l];
            proof {
                assert(record@.items[l as int] == line@);
                assert(start + record@.items.take(l + 1) =~= (start + record@.items.take(
                    l as int,
                )).push(line@));
            }
            match find_name(&names, &line.name) {
                Some(t) => {
                    proof {
                        lemma_tallied_again(
                            seen,
                            names.deep_view(),
                            counts@,
                            firsts,
                            line@,
                            t as int,
                        );
                    }
                    let total: u64 = counts[t].saturating_add(line.quantity);
                    counts.set(t, total);
                },
                None => {
                    proof {
                        lemma_tallied_new(seen, names.deep_view(), counts@, firsts, line@);
                        firsts = firsts.push(seen.len() as int);
                    }
                    let ghost names_before = names;
                    let name = line.name.clone();
                    names.push(name);
                    counts.push(line.quantity);
                    proof {
                        lemma_deep_view_push(names_before, names, name);
                    }
                },
            }
            proof {
                seen = seen.push(line@);
            }
            l += 1;
        }
        proof {
            assert(record@.items.take(l as int) =~= record@.items);
            assert(records.deep_view().take(r + 1).drop_last() =~= records.deep_view().take(
                r as int,
            ));
            assert(records.deep_view().take(r + 1).last() == record@);
        }
        r += 1;
    }
    proof {
        assert(records.deep_view().take(r as int) =~= records.deep_view());
        lemma_tallied_done(seen, names.deep_view(), counts@, firsts);
    }
    (names, counts)
}

/// Whether place `a` of a tally ranks before place `b`: the larger count, or
/// the same count and the earlier place.
spec fn leads(counts: Seq<u64>, a: int, b: int) -> bool {
    counts[a] > counts[b] || (counts[a] == counts[b] && a < b)
}

/// Places of a tally rank as their names do.
proof fn lemma_leads(
    lines: Seq<SaleItemView>,
    names: Seq<Seq<char>>,
    counts: Seq<u64>,
    a: int,
    b: int,
)
    requires
        is_tally(lines, names, counts),
        0 <= a < names.len(),
        0 <= b < names.len(),
        leads(counts, a, b),
    ensures
        outsells(lines, names[a], names[b]),
{
    if counts[a] == counts[b] {
        assert(first_sale(lines, names[a]) < first_sale(lines, names[b]));
    }
}

/// The place that ranks before every other place not yet chosen, or `None`
/// if every place is chosen.
fn best_left(counts: &Vec<u64>, chosen: &Vec<bool>) -> (best: Option<usize>)
    requires
        counts@.len() == chosen@.len(),
    ensures
        match best {
            Some(b) => {
                &&& b < counts@.len()
                &&& !chosen@[b as int]
                &&& forall|t: int|
                    0 <= t < counts@.len() && !#[trigger] chosen@[t] && t != b ==> leads(
                        counts@,
                        b as int,
                        t,
                    )
            },
            None => forall|t: int| 0 <= t < counts@.len() ==> #[trigger] chosen@[t],
        },
{
    let mut best: Option<usize> = None;
    let mut t: usize = 0;
    while t < counts.len()
        invariant
            t <= counts@.len() == chosen@.len(),
            match best {
                Some(b) => {
                    &&& b < t
                    &&& !chosen@[b as int]
                    &&& forall|s: int|
                        0 <= s < t && !#[trigger] chosen@[s] && s != b ==> leads(
                            counts@,
                            b as int,
                            s,
                        )
                },
                None => forall|s: int| 0 <= s < t ==> #[trigger] chosen@[s],
            },
        decreases counts@.len() - t,
    {
        if !chosen[t] {
            match best {
                Some(b) => {
                    if counts[t] > counts[b] {
                        best = Some(t);
                    }
                },
                None => {
                    best = Some(t);
                },
            }
        }
        t += 1;
    }
    best
}

/// Ranks a tally and keeps the first `n` names.
fn rank_tally(
    names: &Vec<String>,
    counts: &Vec<u64>,
    n: usize,
    Ghost(lines): Ghost<Seq<SaleItemView>>,
) -> (top: Vec<(String, u64)>)
    requires
        is_tally(lines, names.deep_view(), counts@),
    ensures
        is_top_selling(lines, n as nat, top.deep_view()),
{
    let count: usize = names.len();
    let mut chosen: Vec<bool> = Vec::new();
    while chosen.len() < count
        invariant
            chosen@.len() <= count,
            forall|t: int| 0 <= t < chosen@.len() ==> !#[trigger] chosen@[t],
        decreases count - chosen@.len(),
    {
        chosen.push(false);
    }
    let mut top: Vec<(String, u64)> = Vec::new();
    let ghost mut picks: Seq<int> = Seq::empty();
    let mut exhausted: bool = false;
    while top.len() < n && !exhausted
        invariant
            is_tally(lines, names.deep_view(), counts@),
            count == names@.len() == counts@.len() == chosen@.len(),
            picks.len() == top@.len() <= n,
            forall|i: int|
                0 <= i < picks.len() ==> {
                    &&& 0 <= #[trigger] picks[i] < count
                    &&& chosen@[picks[i]]
                    &&& top.deep_view()[i] == (names.deep_view()[picks[i]], counts@[picks[i]])
                },
            forall|t: int|
                0 <= t < count && #[trigger] chosen@[t] ==> exists|i: int|
                    0 <= i < picks.len() && #[trigger] picks[i] == t,
            forall|i: int, j: int|
                0 <= i < j < picks.len() ==> leads(
                    counts@,
                    #[trigger] picks[i],
                    #[trigger] picks[j],
                ),
            forall|c: int, u: int|
                0 <= c < count && 0 <= u < count && #[trigger] chosen@[c] && !#[trigger] chosen@[u]
                    ==> leads(counts@, c, u),
            exhausted ==> forall|t: int| 0 <= t < count ==> #[trigger] chosen@[t],
        decreases n - top@.len(), if exhausted { 0int } else { 1int },
    {
        match best_left(counts, &chosen) {
            Some(b) => {
                let ghost top_before = top;
                let ghost chosen_before = chosen@;
                let ghost picks_before = picks;
                let entry = (names[b].clone(), counts[b]);
                top.push(entry);
                chosen.set(b, true);
                proof {
                    picks = picks.push(b as int);
                    lemma_deep_view_push(top_before, top, entry);
                    assert forall|i: int| 0 <= i < picks.len() implies {
                        &&& 0 <= #[trigger] picks[i] < count
                        &&& chosen@[picks[i]]
                        &&& top.deep_view()[i] == (names.deep_view()[picks[i]], counts@[picks[i]])
                    } by {
                        if i < picks_before.len() {
                            assert(picks[i] == picks_before[i]);
                            assert(chosen_before[picks_before[i]]);
                        }
                    }
                    assert forall|t: int| 0 <= t < count && #[trigger] chosen@[t] implies exists|
                        i: int,
                    |
                        0 <= i < picks.len() && #[trigger] picks[i] == t by {
                        if t == b {
                            assert(picks[picks_before.len() as int] == t);
                        } else {
                            assert(chosen_before[t]);
                            let i = choose|i: int|
                                0 <= i < picks_before.len() && #[trigger] picks_before[i] == t;
                            assert(picks[i] == t);
                        }
                    }
                    assert forall|i: int, j: int| 0 <= i < j < picks.len() implies leads(
                        counts@,
                        #[trigger] picks[i],
                        #[trigger] picks[j],
                    ) by {
                        assert(picks[i] == picks_before[i]);
                        if j < picks_before.len() {
                            assert(picks[j] == picks_before[j]);
                        } else {
                            assert(chosen_before[picks_before[i]]);
                            assert(!chosen_before[b as int]);
                        }
                    }
                    assert forall|c: int, u: int|
                        0 <= c < count && 0 <= u < count && #[trigger] chosen@[c]
                            && !#[trigger] chosen@[u] implies leads(counts@, c, u) by {
                        assert(!chosen_before[u]);
                        if c != b {
                            assert(chosen_before[c]);
                        }
                    }
                }
            },
            None => {
                exhausted = true;
            },
        }
    }
    proof {
        let names_view = names.deep_view();
        let top_view = top.deep_view();
        assert forall|i: int| 0 <= i < top_view.len() implies {
            &&& sold_at_all(lines, (#[trigger] top_view[i]).0)
            &&& top_view[i].1 == reported(units_sold(lines, top_view[i].0))
        } by {
            assert(top_view[i] == (names_view[picks[i]], counts@[picks[i]]));
        }
        assert forall|i: int, j: int| 0 <= i < j < top_view.len() implies outsells(
            lines,
            (#[trigger] top_view[i]).0,
            (#[trigger] top_view[j]).0,
        ) by {
            assert(leads(counts@, picks[i], picks[j]));
            lemma_leads(lines, names_view, counts@, picks[i], picks[j]);
        }
        assert forall|name: Seq<char>| #[trigger] sold_at_all(lines, name) implies listed(
            top_view,
            name,
        ) || (top_view.len() == n && forall|i: int|
            0 <= i < top_view.len() ==> outsells(lines, (#[trigger] top_view[i]).0, name)) by {
            let at = choose|at: int| 0 <= at < lines.len() && (#[trigger] lines[at]).name == name;
            assert(among(names_view, lines[at].name));
            let t = choose|t: int| 0 <= t < names_view.len() && #[trigger] names_view[t] == name;
            if chosen@[t] {
                let i = choose|i: int| 0 <= i < picks.len() && #[trigger] picks[i] == t;
                assert(top_view[i].0 == name);
            } else {
                assert(!exhausted);
                assert forall|i: int| 0 <= i < top_view.len() implies outsells(
                    lines,
                    (#[trigger] top_view[i]).0,
                    name,
                ) by {
                    assert(chosen@[picks[i]]);
                    lemma_leads(lines, names_view, counts@, picks[i], t);
                }
            }
        }
    }
    top
}

/// The first `n` names of the ranking of what the records sold, each with its
/// reported count.
pub fn top_selling(records: &Vec<SaleRecord>, n: usize) -> (top: Vec<(String, u64)>)
    ensures
        is_top_selling(all_lines(records.deep_view()), n as nat, top.deep_view()),
{
    let (names, counts) = tally_sales(records);
    rank_tally(&names, &counts, n, Ghost(all_lines(records.deep_view())))
}

} // verus!
