//! Filters over a collection: by done state, by waiting context, by
//! age of the start date, and the overdue test.

use vstd::prelude::*;

use crate::chars::{chars_eq_ignore_case, chars_of, eq_ignore_ascii_case, lex_lt, str_lt};
use crate::dates::{age_token_spec, cutoff_day, cutoff_day_spec, date_string_of, parse_age_token,
    render_day, DAY_MAX, DAY_MIN};
use crate::{ItemView, TodoItem};

verus! {

/// The items kept by the done filter: all of them when `show_all`,
/// otherwise only the not-done ones, in order.
pub open spec fn filter_done_spec(s: Seq<TodoItem>, show_all: bool) -> Seq<TodoItem>
    decreases s.len(),
{
    if s.len() == 0 {
        Seq::empty()
    } else {
        let rest = filter_done_spec(s.drop_last(), show_all);
        if show_all || s.last()@.done_date is None {
            rest.push(s.last())
        } else {
            rest
        }
    }
}

/// Drops done items unless `show_all` is set.
pub fn filter_done(items: Vec<TodoItem>, show_all: bool) -> (r: Vec<TodoItem>)
    ensures
        r@ == filter_done_spec(items@, show_all),
{
    let mut out: Vec<TodoItem> = Vec::new();
    let mut v = items;
    let ghost orig = v@;
    let mut i: usize = 0;
    proof {
        assert(orig.subrange(0, 0) =~= Seq::<TodoItem>::empty());
        assert(orig.len() == v.len());
    }
    while v.len() > 0
        invariant
            orig.len() <= usize::MAX,
            i + v@.len() == orig.len(),
            v@ == orig.skip(i as int),
            out@ == filter_done_spec(orig.subrange(0, i as int), show_all),
        decreases v.len(),
    {
        let t = v.remove(0);
        proof {
            assert(t == orig[i as int]);
            assert(v@ =~= orig.skip(i + 1 as int));
            let ext = orig.subrange(0, i + 1 as int);
            assert(ext.drop_last() =~= orig.subrange(0, i as int));
            assert(ext.last() == orig[i as int]);
        }
        let keep = show_all || t.done_date.is_none();
        if keep {
            out.push(t);
        }
        i += 1;
    }
    proof {
        assert(orig.subrange(0, i as int) =~= orig);
    }
    out
}

/// An item is waiting when its context, ASCII-case-folded, is exactly
/// `wf`.
pub open spec fn is_waiting(v: ItemView) -> bool {
    match v.context {
        Some(c) => eq_ignore_ascii_case(c, seq!['w', 'f']),
        None => false,
    }
}

/// The items kept when waiting items are hidden.
pub open spec fn filter_waiting_spec(s: Seq<TodoItem>, hide: bool) -> Seq<TodoItem>
    decreases s.len(),
{
    if s.len() == 0 {
        Seq::empty()
    } else {
        let rest = filter_waiting_spec(s.drop_last(), hide);
        if !hide || !is_waiting(s.last()@) {
            rest.push(s.last())
        } else {
            rest
        }
    }
}

/// When `hide` is set, drops items whose context is `wf` in any case
/// mix.
pub fn filter_hide_waiting(items: Vec<TodoItem>, hide: bool) -> (r: Vec<TodoItem>)
    ensures
        r@ == filter_waiting_spec(items@, hide),
{
    let mut wf: Vec<char> = Vec::new();
    wf.push('w');
    wf.push('f');
    proof {
        assert(wf@ =~= seq!['w', 'f']);
    }
    let mut out: Vec<TodoItem> = Vec::new();
    let mut v = items;
    let ghost orig = v@;
    let mut i: usize = 0;
    proof {
        assert(orig.subrange(0, 0) =~= Seq::<TodoItem>::empty());
        assert(orig.len() == v.len());
    }
    while v.len() > 0
        invariant
            orig.len() <= usize::MAX,
            i + v@.len() == orig.len(),
            v@ == orig.skip(i as int),
            wf@ == seq!['w', 'f'],
            out@ == filter_waiting_spec(orig.subrange(0, i as int), hide),
        decreases v.len(),
    {
        let t = v.remove(0);
        proof {
            assert(t == orig[i as int]);
            assert(v@ =~= orig.skip(i + 1 as int));
            let ext = orig.subrange(0, i + 1 as int);
            assert(ext.drop_last() =~= orig.subrange(0, i as int));
            assert(ext.last() == orig[i as int]);
        }
        let waiting = match &t.context {
            Some(c) => {
                let cv = chars_of(c.as_str());
                chars_eq_ignore_case(&cv, &wf)
            },
            None => false,
        };
        if !hide || !waiting {
            out.push(t);
        }
        i += 1;
    }
    proof {
        assert(orig.subrange(0, i as int) =~= orig);
    }
    out
}

/// The error of a malformed age filter, carrying the offending token.
#[derive(Debug)]
pub struct FilterError {
    pub token: String,
}

/// The items kept by the age filter: those whose start date is at or
/// before the cutoff, compared lexicographically on the fixed-width
/// date form.
pub open spec fn filter_age_spec(s: Seq<TodoItem>, cutoff: Seq<char>) -> Seq<TodoItem>
    decreases s.len(),
{
    if s.len() == 0 {
        Seq::empty()
    } else {
        let rest = filter_age_spec(s.drop_last(), cutoff);
        if !lex_lt(cutoff, s.last()@.start_date) {
            rest.push(s.last())
        } else {
            rest
        }
    }
}

/// Filters a collection by age.  A malformed token is a user error: it
/// is returned with the collection untouched by the caller.  A valid
/// token `+N<unit>` keeps the items started at or before `N` units
/// before `today`.
pub fn filter_by_age(items: Vec<TodoItem>, token: &str, today: i64) -> (r: Result<
    Vec<TodoItem>,
    FilterError,
>)
    requires
        DAY_MIN <= today <= DAY_MAX,
    ensures
        match r {
            Ok(kept) => age_token_spec(token@) is Some && kept@ == filter_age_spec(
                items@,
                date_string_of(
                    cutoff_day_spec(
                        today as int,
                        (age_token_spec(token@)->0).0 as int,
                        (age_token_spec(token@)->0).1,
                    ),
                ),
            ),
            Err(e) => age_token_spec(token@) is None && e.token@ == token@,
        },
{
    let parsed = parse_age_token(token);
    match parsed {
        None => Err(FilterError { token: token_string(token) }),
        Some((value, unit)) => {
            let cut = render_day(cutoff_day(today, value, unit));
            let ghost cutoff = cut@;
            let mut out: Vec<TodoItem> = Vec::new();
            let mut v = items;
            let ghost orig = v@;
            let mut i: usize = 0;
            proof {
                assert(orig.subrange(0, 0) =~= Seq::<TodoItem>::empty());
                assert(orig.len() == v.len());
            }
            while v.len() > 0
                invariant
                    orig.len() <= usize::MAX,
                    i + v@.len() == orig.len(),
                    v@ == orig.skip(i as int),
                    cutoff == cut@,
                    out@ == filter_age_spec(orig.subrange(0, i as int), cutoff),
                decreases v.len(),
            {
                let t = v.remove(0);
                proof {
                    assert(t == orig[i as int]);
                    assert(v@ =~= orig.skip(i + 1 as int));
                    let ext = orig.subrange(0, i + 1 as int);
                    assert(ext.drop_last() =~= orig.subrange(0, i as int));
                    assert(ext.last() == orig[i as int]);
                }
                let keep = !str_lt(cut.as_str(), t.start_date.as_str());
                if keep {
                    out.push(t);
                }
                i += 1;
            }
            proof {
                assert(orig.subrange(0, i as int) =~= orig);
            }
            Ok(out)
        },
    }
}

/// A copy of a borrowed token.
fn token_string(token: &str) -> (s: String)
    ensures
        s@ == token@,
{
    let v = chars_of(token);
    crate::chars::string_from_chars(&v)
}

/// An item is overdue exactly when it has a due date strictly before
/// `today`, compared lexicographically on the fixed-width date form.
pub fn is_overdue(item: &TodoItem, today: &str) -> (r: bool)
    ensures
        r == (item@.due_date is Some && lex_lt(item@.due_date->0, today@)),
{
    match &item.due_date {
        Some(d) => str_lt(d.as_str(), today),
        None => false,
    }
}

} // verus!
