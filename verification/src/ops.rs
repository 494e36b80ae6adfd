//! Operations on a collection: position assignment, adding an entry,
//! marking done, setting priority, listing, and the project index.

use vstd::prelude::*;

use crate::chars::{ascii_letter, ascii_upper, chars_lt, chars_of, eq_ignore_ascii_case,
    is_ascii_letter, lemma_lex_lt_total, lemma_lex_lt_trans, lex_lt, to_ascii_upper};
use crate::dates::{date_string_of, due_input_spec, parse_due_input, render_day, trim_chars,
    trim_spec, DAY_MAX, DAY_MIN};
use crate::filter::filter_done_spec;
use crate::order::{order_for_display, sorted_items};
use crate::tokenizer::{join_words, tokenize, tokenize_spec, Tokenized};
use crate::{ItemView, TodoItem};

verus! {

/// Every position is its 1-based index in the collection.
pub open spec fn positions_assigned(s: Seq<TodoItem>) -> bool {
    forall|i: int| 0 <= i < s.len() ==> (#[trigger] s[i])@.position == i + 1
}

/// Recomputes every position as the item's 1-based index, leaving all
/// other fields alone.
pub fn assign_positions(items: Vec<TodoItem>) -> (r: Vec<TodoItem>)
    ensures
        r@.len() == items@.len(),
        forall|i: int| 0 <= i < r@.len() ==> (#[trigger] r@[i])@.same_fields(items@[i]@),
        positions_assigned(r@),
{
    let mut v = items;
    let ghost orig = v@;
    let mut out: Vec<TodoItem> = Vec::new();
    proof {
        assert(orig.len() == v.len());
    }
    while v.len() > 0
        invariant
            orig.len() <= usize::MAX,
            out@.len() + v@.len() == orig.len(),
            v@ == orig.skip(out@.len() as int),
            forall|i: int| 0 <= i < out@.len() ==> (#[trigger] out@[i])@.same_fields(orig[i]@),
            positions_assigned(out@),
        decreases v.len(),
    {
        let ghost k = out@.len();
        let mut t = v.remove(0);
        proof {
            assert(t == orig[k as int]);
            assert(v@ =~= orig.skip(k + 1 as int));
        }
        t.line_number = out.len() + 1;
        out.push(t);
    }
    out
}

/// The fields an added entry gets, as a function of the raw input and
/// the day it is added: the tokenized description and metadata, no
/// priority, today as start date, the resolved due date if one was
/// given and valid, and no done date.
pub open spec fn added_item(s: Seq<char>, today: int, position: int) -> ItemView {
    let st = tokenize_spec(s, false);
    ItemView {
        position: position,
        priority: None,
        description: join_words(st.words),
        context: st.context,
        project: st.project,
        tags: st.tags,
        start_date: date_string_of(today),
        due_date: match st.due {
            Some(p) => due_input_spec(p, today),
            None => None,
        },
        done_date: None,
    }
}

/// Appends a new entry parsed from `input`, with today's date as start
/// date and the position after the current last.
pub fn add_todo(items: &mut Vec<TodoItem>, input: &str, today: i64)
    requires
        DAY_MIN <= today <= DAY_MAX,
        old(items)@.len() < usize::MAX,
    ensures
        final(items)@.len() == old(items)@.len() + 1,
        final(items)@.subrange(0, old(items)@.len() as int) == old(items)@,
        final(items)@.last()@ == added_item(input@, today as int, old(items)@.len() + 1 as int),
{
    let t: Tokenized = tokenize(input, false);
    let due: Option<String> = match t.due {
        Some(p) => parse_due_input(p.as_str(), today),
        None => None,
    };
    let start = render_day(today);
    let item = TodoItem {
        line_number: items.len() + 1,
        priority: None,
        description: t.description,
        context: t.context,
        project: t.project,
        tags: t.tags,
        start_date: start,
        due_date: due,
        done_date: None,
    };
    let ghost before = items@;
    items.push(item);
    proof {
        assert(items@.subrange(0, before.len() as int) =~= before);
    }
}

/// What standing an item number has for the done operation.
pub enum DoneCheck {
    /// The number names a not-yet-done item.
    Ready,
    /// The number is zero or past the end of the collection.
    NotFound,
    /// The item is already marked as done.
    AlreadyDone,
}

/// Validates an item number for the done operation, changing nothing.
/// Marking an already done item again is rejected.
pub fn check_done(items: &Vec<TodoItem>, n: usize) -> (r: DoneCheck)
    ensures
        r is NotFound <==> (n == 0 || n > items@.len()),
        r is AlreadyDone <==> (1 <= n <= items@.len() && items@[n - 1]@.done_date is Some),
        r is Ready <==> (1 <= n <= items@.len() && items@[n - 1]@.done_date is None),
{
    if n == 0 || n > items.len() {
        DoneCheck::NotFound
    } else if items[n - 1].done_date.is_some() {
        DoneCheck::AlreadyDone
    } else {
        DoneCheck::Ready
    }
}

/// Marks item `n` done with today's date.  Only that item's done date
/// changes.
pub fn mark_done(items: &mut Vec<TodoItem>, n: usize, today: i64)
    requires
        DAY_MIN <= today <= DAY_MAX,
        1 <= n <= old(items)@.len(),
        old(items)@[n - 1]@.done_date is None,
    ensures
        final(items)@.len() == old(items)@.len(),
        forall|i: int|
            0 <= i < final(items)@.len() && i != n - 1 ==> final(items)@[i] == old(items)@[i],
        final(items)@[n - 1]@ == (ItemView {
            done_date: Some(date_string_of(today as int)),
            ..old(items)@[n - 1]@
        }),
{
    let ghost before = items@;
    let mut t = items.remove(n - 1);
    t.done_date = Some(render_day(today));
    items.insert(n - 1, t);
    proof {
        assert forall|i: int| 0 <= i < items@.len() && i != n - 1 implies items@[i] == before[i] by {
            assert(items@[i] == before.remove(n - 1).insert(n - 1, t)[i]);
        }
    }
}

/// The outcome of the priority operation.
pub enum PrOutcome {
    /// The priority was set to this upper-case letter.
    Assigned(char),
    /// The priority was cleared.
    Cleared,
    /// The number is zero or past the end of the collection.
    NotFound,
    /// The new value is not a single ASCII letter.
    Invalid,
}

/// The word `clear`, compared ASCII-case-insensitively.
pub open spec fn is_clear_word(s: Seq<char>) -> bool {
    eq_ignore_ascii_case(s, seq!['c', 'l', 'e', 'a', 'r'])
}

/// Sets, or with the word `clear` removes, the priority of item `n`.
/// A priority must be a single ASCII letter and is folded to upper
/// case.  On a bad number or letter nothing changes.
pub fn set_priority(items: &mut Vec<TodoItem>, pr: &str, n: usize) -> (r: PrOutcome)
    ensures
        r is NotFound <==> (n == 0 || n > old(items)@.len()),
        r is Cleared <==> (1 <= n <= old(items)@.len() && is_clear_word(pr@)),
        r is Invalid <==> (1 <= n <= old(items)@.len() && !is_clear_word(pr@) && !(pr@.len() == 1
            && is_ascii_letter(pr@[0]))),
        r is Assigned <==> (1 <= n <= old(items)@.len() && !is_clear_word(pr@) && pr@.len() == 1
            && is_ascii_letter(pr@[0])),
        r is NotFound || r is Invalid ==> final(items)@ == old(items)@,
        r is Assigned ==> r == PrOutcome::Assigned(ascii_upper(pr@[0])),
        r is Cleared ==> final(items)@.len() == old(items)@.len() && final(items)@[n - 1]@
            == (ItemView { priority: None, ..old(items)@[n - 1]@ }),
        r is Assigned ==> final(items)@.len() == old(items)@.len() && final(items)@[n - 1]@
            == (ItemView { priority: Some(ascii_upper(pr@[0])), ..old(items)@[n - 1]@ }),
        forall|i: int|
            0 <= i < final(items)@.len() && i != n - 1 ==> final(items)@[i] == old(items)@[i],
{
    let ghost before = items@;
    if n == 0 || n > items.len() {
        return PrOutcome::NotFound;
    }
    let pv = chars_of(pr);
    let mut clear_word: Vec<char> = Vec::new();
    clear_word.push('c');
    clear_word.push('l');
    clear_word.push('e');
    clear_word.push('a');
    clear_word.push('r');
    proof {
        assert(clear_word@ =~= seq!['c', 'l', 'e', 'a', 'r']);
    }
    if crate::chars::chars_eq_ignore_case(&pv, &clear_word) {
        let mut t = items.remove(n - 1);
        t.priority = None;
        items.insert(n - 1, t);
        proof {
            assert forall|i: int|
                0 <= i < items@.len() && i != n - 1 implies items@[i] == before[i] by {
                assert(items@[i] == before.remove(n - 1).insert(n - 1, t)[i]);
            }
        }
        return PrOutcome::Cleared;
    }
    if pv.len() != 1 || !ascii_letter(pv[0]) {
        return PrOutcome::Invalid;
    }
    let c = to_ascii_upper(pv[0]);
    let mut t = items.remove(n - 1);
    t.priority = Some(c);
    items.insert(n - 1, t);
    proof {
        assert forall|i: int| 0 <= i < items@.len() && i != n - 1 implies items@[i] == before[i] by {
            assert(items@[i] == before.remove(n - 1).insert(n - 1, t)[i]);
        }
    }
    PrOutcome::Assigned(c)
}

/// Produces the collection as the list command shows it: done items
/// dropped unless `show_all`, then put in display order;
/// `priority_forced` selects the priority-forced mode.
pub fn list_todos(items: Vec<TodoItem>, show_all: bool, priority_forced: bool) -> (r: Vec<
    TodoItem,
>)
    ensures
        r@.to_multiset() == filter_done_spec(items@, show_all).to_multiset(),
        r@.len() == filter_done_spec(items@, show_all).len(),
        sorted_items(r@),
{
    let kept = crate::filter::filter_done(items, show_all);
    order_for_display(kept, priority_forced)
}

/// The set of names a list of strings holds.
pub open spec fn name_set(s: Seq<String>) -> Set<Seq<char>> {
    Set::new(|w: Seq<char>| exists|k: int| 0 <= k < s.len() && (#[trigger] s[k])@ == w)
}

/// The set of projects among the first `n` items.
pub open spec fn projects_upto(items: Seq<TodoItem>, n: int) -> Set<Seq<char>> {
    Set::new(|w: Seq<char>| exists|ii: int| 0 <= ii < n && (#[trigger] items[ii])@.project == Some(w))
}

/// A list of strings in strictly ascending lexicographic order; such a
/// list holds no name twice.
pub open spec fn strictly_sorted(s: Seq<String>) -> bool {
    forall|a: int, b: int| 0 <= a < b < s.len() ==> lex_lt(#[trigger] s[a]@, #[trigger] s[b]@)
}

/// Inserts a name into a strictly sorted list unless it is already
/// there: afterwards the list is still strictly sorted and holds
/// exactly the old names plus `p`.
fn insert_sorted_unique(out: &mut Vec<String>, p: String)
    requires
        strictly_sorted(old(out)@),
    ensures
        strictly_sorted(final(out)@),
        name_set(final(out)@) == name_set(old(out)@).insert(p@),
{
    let pv = chars_of(p.as_str());
    let mut k: usize = 0;
    let mut stop = false;
    while !stop && k < out.len()
        invariant
            0 <= k <= out@.len(),
            out@ == old(out)@,
            pv@ == p@,
            strictly_sorted(out@),
            forall|a: int| 0 <= a < k ==> lex_lt((#[trigger] out@[a])@, p@),
            stop ==> k < out@.len() && !lex_lt(out@[k as int]@, p@),
        decreases out@.len() - k, if stop { 0int } else { 1int },
    {
        let kv = chars_of(out[k].as_str());
        if chars_lt(&kv, &pv) {
            k += 1;
        } else {
            stop = true;
        }
    }
    if k < out.len() {
        let kv = chars_of(out[k].as_str());
        if !chars_lt(&pv, &kv) {
            proof {
                lemma_lex_lt_total(out@[k as int]@, p@);
                assert(out@[k as int]@ == p@);
                assert(name_set(out@).contains(p@));
                assert(name_set(out@) =~= name_set(out@).insert(p@));
            }
            return ;
        }
    }
    let ghost before = out@;
    out.insert(k, p);
    proof {
        assert(out@ == before.insert(k as int, p));
        assert forall|a: int, b: int| 0 <= a < b < out@.len() implies lex_lt(
            #[trigger] out@[a]@,
            #[trigger] out@[b]@,
        ) by {
            if a < k && b == k {
                assert(out@[a] == before[a] && out@[b] == p);
            } else if a < k && b > k {
                assert(out@[a] == before[a] && out@[b] == before[b - 1]);
            } else if a == k && b > k {
                assert(out@[a] == p && out@[b] == before[b - 1]);
                if b - 1 == k {
                    assert(lex_lt(p@, before[k as int]@));
                } else {
                    assert(lex_lt(before[k as int]@, before[b - 1]@));
                    lemma_lex_lt_trans(p@, before[k as int]@, before[b - 1]@);
                }
            } else if a > k {
                assert(out@[a] == before[a - 1] && out@[b] == before[b - 1]);
            } else {
                assert(out@[a] == before[a] && out@[b] == before[b]);
            }
        }
        assert(name_set(out@) =~= name_set(before).insert(p@)) by {
            assert forall|w: Seq<char>| name_set(out@).contains(w) implies name_set(
                before,
            ).insert(p@).contains(w) by {
                let kk = choose|kk: int| 0 <= kk < out@.len() && (#[trigger] out@[kk])@ == w;
                if kk < k {
                    assert(before[kk]@ == w);
                } else if kk > k {
                    assert(before[kk - 1]@ == w);
                }
            }
            assert forall|w: Seq<char>| name_set(before).insert(p@).contains(w) implies name_set(
                out@,
            ).contains(w) by {
                if w == p@ {
                    assert(out@[k as int]@ == w);
                } else {
                    let k0 = choose|k0: int| 0 <= k0 < before.len() && (#[trigger] before[k0])@
                        == w;
                    if k0 < k {
                        assert(out@[k0]@ == w);
                    } else {
                        assert(out@[k0 + 1]@ == w);
                    }
                }
            }
        }
    }
}

/// Exactly the projects that occur in the collection, each once, in
/// strictly ascending lexicographic order.
pub fn list_projects(items: &Vec<TodoItem>) -> (r: Vec<String>)
    ensures
        strictly_sorted(r@),
        name_set(r@) == projects_upto(items@, items@.len() as int),
{
    let mut out: Vec<String> = Vec::new();
    let mut i: usize = 0;
    proof {
        assert(name_set(out@) =~= projects_upto(items@, 0));
    }
    while i < items.len()
        invariant
            0 <= i <= items@.len(),
            items@.len() == items.len(),
            strictly_sorted(out@),
            name_set(out@) == projects_upto(items@, i as int),
        decreases items.len() - i,
    {
        let p: Option<String> = match &items[i].project {
            Some(s) => Some(s.clone()),
            None => None,
        };
        match p {
            Some(name) => {
                let ghost namev = name@;
                proof {
                    assert(items@[i as int]@.project == Some(namev));
                }
                insert_sorted_unique(&mut out, name);
                proof {
                    assert(projects_upto(items@, i + 1 as int) =~= projects_upto(
                        items@,
                        i as int,
                    ).insert(namev)) by {
                        assert forall|w: Seq<char>|
                            projects_upto(items@, i + 1 as int).contains(w) implies projects_upto(
                            items@,
                            i as int,
                        ).insert(namev).contains(w) by {
                            let ii = choose|ii: int|
                                0 <= ii < i + 1 && (#[trigger] items@[ii])@.project == Some(w);
                            if ii < i {
                                assert(projects_upto(items@, i as int).contains(w));
                            }
                        }
                        assert forall|w: Seq<char>|
                            projects_upto(items@, i as int).insert(namev).contains(
                                w,
                            ) implies projects_upto(items@, i + 1 as int).contains(w) by {
                            if w == namev {
                                assert((#[trigger] items@[i as int])@.project == Some(w));
                            } else {
                                let ii = choose|ii: int|
                                    0 <= ii < i && (#[trigger] items@[ii])@.project == Some(w);
                                assert(items@[ii]@.project == Some(w));
                            }
                        }
                    }
                }
            },
            None => {
                proof {
                    assert(projects_upto(items@, i + 1 as int) =~= projects_upto(
                        items@,
                        i as int,
                    )) by {
                        assert forall|w: Seq<char>|
                            projects_upto(items@, i + 1 as int).contains(w) implies projects_upto(
                            items@,
                            i as int,
                        ).contains(w) by {
                            let ii = choose|ii: int|
                                0 <= ii < i + 1 && (#[trigger] items@[ii])@.project == Some(w);
                            assert(ii < i);
                        }
                        assert forall|w: Seq<char>|
                            projects_upto(items@, i as int).contains(w) implies projects_upto(
                            items@,
                            i + 1 as int,
                        ).contains(w) by {
                            let ii = choose|ii: int|
                                0 <= ii < i && (#[trigger] items@[ii])@.project == Some(w);
                            assert(items@[ii]@.project == Some(w));
                        }
                    }
                }
            },
        }
        i += 1;
    }
    out
}

/// The wording a rejected done operation reports.
pub fn done_check_message(r: &DoneCheck) -> (s: String)
    ensures
        r is AlreadyDone ==> s@ == "already marked as done"@,
        r is NotFound ==> s@ == "does not exist"@,
        r is Ready ==> s@ == ""@,
{
    match r {
        DoneCheck::AlreadyDone => <String as vstd::string::StringExecFns>::from_str("already marked as done"),
        DoneCheck::NotFound => <String as vstd::string::StringExecFns>::from_str("does not exist"),
        DoneCheck::Ready => <String as vstd::string::StringExecFns>::from_str(""),
    }
}

/// An interactive confirmation accepts exactly a trimmed `Y` or `y`.
pub fn is_affirmative(s: &str) -> (r: bool)
    ensures
        r == (trim_spec(s@) == seq!['Y'] || trim_spec(s@) == seq!['y']),
{
    let v = chars_of(s);
    let t = trim_chars(&v);
    if t.len() != 1 {
        proof {
            assert(t@ != seq!['Y'] && t@ != seq!['y']);
        }
        return false;
    }
    let c = t[0];
    proof {
        assert(t@ =~= seq![t@[0]]);
    }
    c == 'Y' || c == 'y'
}

} // verus!
