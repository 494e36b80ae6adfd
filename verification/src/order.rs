//! The display ordering.
//!
//! The default order has four tiers, most specific first: items with
//! both a due date and a priority (by priority, then due date), items
//! with a due date only (by due date), items with a priority only (by
//! priority), and bare items (by position).  Any item of an earlier
//! tier sorts before any item of a later one.  Ties inside a tier fall
//! back to the position, so the order is total.
//!
//! The priority-forced mode runs after the default order and re-sorts
//! only the due-date-less tail by priority; items with a due date keep
//! their places.

use vstd::prelude::*;
use vstd::multiset::Multiset;

use crate::chars::{lemma_char_cast_inj, lemma_lex_lt_asym, lemma_lex_lt_irrefl, lemma_lex_lt_total,
    lemma_lex_lt_trans, lex_lt, str_lt};
use crate::{ItemView, TodoItem};

verus! {

/// The precedence class of an item, lower first.
pub open spec fn tier(v: ItemView) -> int {
    if v.due_date is Some && v.priority is Some {
        0
    } else if v.due_date is Some {
        1
    } else if v.priority is Some {
        2
    } else {
        3
    }
}

/// The display order: `a` sorts at or before `b`.
pub open spec fn item_le(a: ItemView, b: ItemView) -> bool {
    if tier(a) != tier(b) {
        tier(a) < tier(b)
    } else if tier(a) == 0 {
        if a.priority->0 != b.priority->0 {
            (a.priority->0 as u32) < (b.priority->0 as u32)
        } else if a.due_date->0 != b.due_date->0 {
            lex_lt(a.due_date->0, b.due_date->0)
        } else {
            a.position <= b.position
        }
    } else if tier(a) == 1 {
        if a.due_date->0 != b.due_date->0 {
            lex_lt(a.due_date->0, b.due_date->0)
        } else {
            a.position <= b.position
        }
    } else if tier(a) == 2 {
        if a.priority->0 != b.priority->0 {
            (a.priority->0 as u32) < (b.priority->0 as u32)
        } else {
            a.position <= b.position
        }
    } else {
        a.position <= b.position
    }
}

/// The order relates every pair of items.
pub proof fn lemma_item_le_total(a: ItemView, b: ItemView)
    ensures
        item_le(a, b) || item_le(b, a),
{
    if tier(a) == tier(b) {
        if (tier(a) == 0 || tier(a) == 2) && a.priority->0 != b.priority->0 {
            lemma_char_cast_inj(a.priority->0, b.priority->0);
        } else if (tier(a) == 0 || tier(a) == 1) && a.due_date->0 != b.due_date->0 {
            lemma_lex_lt_total(a.due_date->0, b.due_date->0);
        }
    }
}

/// The order is transitive.
pub proof fn lemma_item_le_trans(a: ItemView, b: ItemView, c: ItemView)
    requires
        item_le(a, b),
        item_le(b, c),
    ensures
        item_le(a, c),
{
    if tier(a) == tier(b) && tier(b) == tier(c) {
        if tier(a) == 0 || tier(a) == 1 {
            let da = a.due_date->0;
            let db = b.due_date->0;
            let dc = c.due_date->0;
            if da != db && db != dc && da != dc {
                if lex_lt(da, db) && lex_lt(db, dc) {
                    lemma_lex_lt_trans(da, db, dc);
                }
            }
            if da != db && db != dc && da == dc {
                if lex_lt(da, db) {
                    lemma_lex_lt_asym(da, db);
                }
            }
        }
    }
}

/// `a` sorts at or before `b` in the display order.
pub fn item_le_exec(a: &TodoItem, b: &TodoItem) -> (r: bool)
    ensures
        r == item_le(a@, b@),
{
    let ta: u8 = match (&a.due_date, &a.priority) {
        (Some(_), Some(_)) => 0,
        (Some(_), None) => 1,
        (None, Some(_)) => 2,
        (None, None) => 3,
    };
    let tb: u8 = match (&b.due_date, &b.priority) {
        (Some(_), Some(_)) => 0,
        (Some(_), None) => 1,
        (None, Some(_)) => 2,
        (None, None) => 3,
    };
    if ta != tb {
        return ta < tb;
    }
    if ta == 0 || ta == 2 {
        let pa = match &a.priority {
            Some(p) => *p,
            None => ' ',
        };
        let pb = match &b.priority {
            Some(p) => *p,
            None => ' ',
        };
        if pa != pb {
            return (pa as u32) < (pb as u32);
        }
    }
    if ta == 0 || ta == 1 {
        let da = match &a.due_date {
            Some(d) => d.as_str(),
            None => "",
        };
        let db = match &b.due_date {
            Some(d) => d.as_str(),
            None => "",
        };
        if str_lt(da, db) {
            proof {
                lemma_lex_lt_irrefl(da@);
            }
            return true;
        }
        if str_lt(db, da) {
            proof {
                lemma_lex_lt_irrefl(db@);
                lemma_lex_lt_asym(db@, da@);
            }
            return false;
        }
        proof {
            lemma_lex_lt_total(da@, db@);
        }
    }
    a.line_number <= b.line_number
}

/// A collection already in display order.
pub open spec fn sorted_items(s: Seq<TodoItem>) -> bool {
    forall|i: int, j: int| 0 <= i < j < s.len() ==> item_le(#[trigger] s[i]@, #[trigger] s[j]@)
}

/// Sorts a collection into the display order.  The result is a
/// permutation of the input.
pub fn sort_items(items: Vec<TodoItem>) -> (r: Vec<TodoItem>)
    ensures
        r@.to_multiset() == items@.to_multiset(),
        r@.len() == items@.len(),
        sorted_items(r@),
{
    broadcast use vstd::seq_lib::group_to_multiset_ensures;
    broadcast use vstd::multiset::group_multiset_axioms;

    let mut v = items;
    let ghost orig = v@;
    let mut out: Vec<TodoItem> = Vec::new();
    proof {
        assert(out@.to_multiset().add(v@.to_multiset()) =~= orig.to_multiset());
    }
    while v.len() > 0
        invariant
            out@.to_multiset().add(v@.to_multiset()) == orig.to_multiset(),
            out@.len() + v@.len() == orig.len(),
            sorted_items(out@),
            forall|i: int, j: int|
                0 <= i < out@.len() && 0 <= j < v@.len() ==> item_le(
                    #[trigger] out@[i]@,
                    #[trigger] v@[j]@,
                ),
        decreases v.len(),
    {
        let mut m: usize = 0;
        let mut j: usize = 1;
        while j < v.len()
            invariant
                0 <= m < j <= v.len(),
                v.len() > 0,
                forall|k: int| 0 <= k < j ==> item_le(v@[m as int]@, #[trigger] v@[k]@),
            decreases v.len() - j,
        {
            if item_le_exec(&v[j], &v[m]) {
                proof {
                    assert forall|k: int| 0 <= k < j + 1 implies item_le(
                        v@[j as int]@,
                        #[trigger] v@[k]@,
                    ) by {
                        lemma_item_le_total(v@[j as int]@, v@[j as int]@);
                        if k < j {
                            lemma_item_le_trans(v@[j as int]@, v@[m as int]@, v@[k]@);
                        }
                    }
                }
                m = j;
            } else {
                proof {
                    lemma_item_le_total(v@[m as int]@, v@[j as int]@);
                }
            }
            j += 1;
        }
        let ghost pre = v@;
        let ghost out_pre = out@;
        let x = v.remove(m);
        out.push(x);
        proof {
            assert(out@.to_multiset().add(v@.to_multiset()) =~= orig.to_multiset()) by {
                pre.to_multiset_ensures();
                out_pre.to_multiset_ensures();
                assert(pre[m as int] == x);
                assert(pre.contains(x));
                assert(pre.remove(m as int).to_multiset() =~= pre.to_multiset().remove(x));
                assert(out_pre.push(x).to_multiset() =~= out_pre.to_multiset().insert(x));
                assert(v@.to_multiset() == pre.remove(m as int).to_multiset());
                assert(out@.to_multiset() == out_pre.push(x).to_multiset());
                assert(pre.to_multiset().count(x) > 0);
            }
            assert forall|i: int, j2: int|
                0 <= i < out@.len() && 0 <= j2 < v@.len() implies item_le(
                #[trigger] out@[i]@,
                #[trigger] v@[j2]@,
            ) by {
                let y = v@[j2];
                assert(pre.contains(y)) by {
                    if j2 < m {
                        assert(pre[j2] == y);
                    } else {
                        assert(pre[j2 + 1] == y);
                    }
                }
                assert(item_le(x@, y@)) by {
                    if j2 < m {
                        assert(pre[j2] == y);
                    } else {
                        assert(pre[j2 + 1] == y);
                    }
                }
                if i < out_pre.len() {
                    assert(item_le(out_pre[i]@, y@));
                } else {
                    assert(out@[i] == x);
                }
            }
            assert(sorted_items(out@)) by {
                assert forall|i: int, j2: int| 0 <= i < j2 < out@.len() implies item_le(
                    #[trigger] out@[i]@,
                    #[trigger] out@[j2]@,
                ) by {
                    if j2 < out_pre.len() {
                        assert(out@[i] == out_pre[i] && out@[j2] == out_pre[j2]);
                    } else {
                        assert(out@[j2] == x);
                        assert(pre.contains(x)) by {
                            assert(pre[m as int] == x);
                        }
                        assert(item_le(out_pre[i]@, x@));
                    }
                }
            }
        }
    }
    proof {
        assert(v@.to_multiset() =~= Multiset::<TodoItem>::empty());
        assert(out@.to_multiset() =~= orig.to_multiset());
    }
    out
}

/// An item has a due date.
pub open spec fn has_due(t: TodoItem) -> bool {
    t@.due_date is Some
}

/// Produces the display order.  The default mode sorts by the four-tier
/// comparator.  The priority-forced mode then re-sorts the due-date-less
/// tail; because that tail is already ordered by priority before
/// position, the overall order satisfies the same contract.
pub fn order_for_display(items: Vec<TodoItem>, priority_forced: bool) -> (r: Vec<TodoItem>)
    ensures
        r@.to_multiset() == items@.to_multiset(),
        r@.len() == items@.len(),
        sorted_items(r@),
{
    broadcast use vstd::seq_lib::group_to_multiset_ensures;
    broadcast use vstd::multiset::group_multiset_axioms;

    let ghost orig = items@;
    let mut sorted = sort_items(items);
    if !priority_forced {
        return sorted;
    }
    let ghost whole = sorted@;
    let mut k: usize = 0;
    while k < sorted.len() && sorted[k].due_date.is_some()
        invariant
            0 <= k <= sorted@.len(),
            sorted@ == whole,
            forall|i: int| 0 <= i < k ==> has_due(#[trigger] whole[i]),
        decreases sorted.len() - k,
    {
        k += 1;
    }
    proof {
        assert forall|i: int| k <= i < whole.len() implies !has_due(#[trigger] whole[i]) by {
            if i > k {
                assert(item_le(whole[k as int]@, whole[i]@));
            }
        }
    }
    let tail = sorted.split_off(k);
    let ghost head = sorted@;
    let ghost tail0 = tail@;
    let mut ts = sort_items(tail);
    let ghost tail_sorted_view = ts@;
    let mut r = sorted;
    r.append(&mut ts);
    proof {
        assert(head =~= whole.subrange(0, k as int));
        assert(tail0 =~= whole.subrange(k as int, whole.len() as int));
        assert(head + tail0 =~= whole);
        vstd::seq_lib::lemma_multiset_commutative(head, tail0);
        vstd::seq_lib::lemma_multiset_commutative(head, tail_sorted_view);
        assert(r@ == head + tail_sorted_view);
        assert(r@.to_multiset() =~= whole.to_multiset());
        assert forall|i: int| 0 <= i < tail_sorted_view.len() implies !has_due(
            #[trigger] tail_sorted_view[i],
        ) by {
            assert(tail_sorted_view.contains(tail_sorted_view[i]));
            assert(tail_sorted_view.to_multiset().count(tail_sorted_view[i]) > 0);
            assert(tail0.contains(tail_sorted_view[i]));
            let jj = choose|j: int| 0 <= j < tail0.len() && tail0[j] == tail_sorted_view[i];
            assert(tail0[jj] == whole[k + jj]);
        }
        assert forall|i: int, j: int| 0 <= i < j < r@.len() implies item_le(
            #[trigger] r@[i]@,
            #[trigger] r@[j]@,
        ) by {
            if i < k && j < k {
                assert(r@[i] == whole[i] && r@[j] == whole[j]);
            } else if i < k && j >= k {
                assert(r@[i] == whole[i]);
                assert(r@[j] == tail_sorted_view[j - k]);
                assert(has_due(whole[i]));
                assert(!has_due(tail_sorted_view[j - k]));
                assert(tier(r@[i]@) <= 1 && tier(r@[j]@) >= 2);
            } else {
                assert(r@[i] == tail_sorted_view[i - k] && r@[j] == tail_sorted_view[j - k]);
            }
        }
    }
    r
}

} // verus!
