//! The plain-text line format: one item per line, an optional leading
//! `(X) ` priority marker, and the metadata embedded as prefixed words
//! (`@context`, `P:project`, `T:tag`, `S:start`, `D:done`, `Due:due`).
//! The convert operation reads this format; rendering is its inverse
//! for well-behaved fields.

use vstd::prelude::*;

use crate::chars::{ascii_letter, ascii_upper, chars_of, is_ascii_letter, string_from_chars,
    to_ascii_upper};
use crate::dates::{due_input_spec, parse_due_input, DAY_MAX, DAY_MIN};
use crate::tokenizer::{join_desc, join_words, tokenize, tokenize_spec, Tokenized};
use crate::{ItemView, TodoItem};

verus! {

/// The priority a line carries: an ASCII letter between parentheses,
/// followed by a space, at the very start, folded to upper case.
pub open spec fn line_priority(s: Seq<char>) -> Option<char> {
    if s.len() >= 4 && s[0] == '(' && is_ascii_letter(s[1]) && s[2] == ')' && s[3] == ' ' {
        Some(ascii_upper(s[1]))
    } else {
        None
    }
}

/// The line with its priority marker removed.
pub open spec fn line_rest(s: Seq<char>) -> Seq<char> {
    if line_priority(s) is Some {
        s.skip(4)
    } else {
        s
    }
}

/// The item a persisted line denotes: the marker gives the priority,
/// and the rest is tokenized with the `S:`/`D:` prefixes active.  The
/// start date defaults to the empty string; a due payload resolves as
/// a due entry against `today`.  The position is left at zero for the
/// loader to assign.
pub open spec fn parsed_line(s: Seq<char>, today: int) -> ItemView {
    let st = tokenize_spec(line_rest(s), true);
    ItemView {
        position: 0,
        priority: line_priority(s),
        description: join_words(st.words),
        context: st.context,
        project: st.project,
        tags: st.tags,
        start_date: match st.start {
            Some(d) => d,
            None => Seq::empty(),
        },
        due_date: match st.due {
            Some(p) => due_input_spec(p, today),
            None => None,
        },
        done_date: st.done,
    }
}

/// Parses one plain-text line into an item.
pub fn parse_line(line: &str, today: i64) -> (r: TodoItem)
    requires
        DAY_MIN <= today <= DAY_MAX,
    ensures
        r@ == parsed_line(line@, today as int),
{
    let v = chars_of(line);
    let mut priority: Option<char> = None;
    let mut rest_start: usize = 0;
    if v.len() >= 4 && v[0] == '(' && ascii_letter(v[1]) && v[2] == ')' && v[3] == ' ' {
        priority = Some(to_ascii_upper(v[1]));
        rest_start = 4;
    }
    let rest_chars = crate::tokenizer::tail_chars(&v, rest_start);
    let rest = string_from_chars(&rest_chars);
    proof {
        assert(v@.skip(0) =~= v@);
        assert(rest@ == line_rest(line@));
    }
    let t: Tokenized = tokenize(rest.as_str(), true);
    let due: Option<String> = match t.due {
        Some(p) => parse_due_input(p.as_str(), today),
        None => None,
    };
    let start: String = match t.start {
        Some(d) => d,
        None => String::new(),
    };
    let item = TodoItem {
        line_number: 0,
        priority,
        description: t.description,
        context: t.context,
        project: t.project,
        tags: t.tags,
        start_date: start,
        due_date: due,
        done_date: t.done,
    };
    item
}

/// Each tag behind its `T:` prefix, in order.
pub open spec fn tag_pieces(ts: Seq<Seq<char>>) -> Seq<Seq<char>>
    decreases ts.len(),
{
    if ts.len() == 0 {
        Seq::empty()
    } else {
        tag_pieces(ts.drop_last()).push(seq!['T', ':'] + ts.last())
    }
}

/// The words a rendered line is joined from: the `(X)` marker if a
/// priority is set, the description, then each metadata field behind
/// its prefix, in the order context, project, tags, start, done, due.
/// Empty description and absent fields contribute nothing.
pub open spec fn line_pieces(v: ItemView) -> Seq<Seq<char>> {
    let pri: Seq<Seq<char>> = match v.priority {
        Some(c) => seq![seq!['(', c, ')']],
        None => Seq::empty(),
    };
    let desc: Seq<Seq<char>> = if v.description.len() > 0 {
        seq![v.description]
    } else {
        Seq::empty()
    };
    let ctx: Seq<Seq<char>> = match v.context {
        Some(c) => seq![seq!['@'] + c],
        None => Seq::empty(),
    };
    let proj: Seq<Seq<char>> = match v.project {
        Some(p) => seq![seq!['P', ':'] + p],
        None => Seq::empty(),
    };
    let tags: Seq<Seq<char>> = tag_pieces(v.tags);
    let start: Seq<Seq<char>> = if v.start_date.len() > 0 {
        seq![seq!['S', ':'] + v.start_date]
    } else {
        Seq::empty()
    };
    let done: Seq<Seq<char>> = match v.done_date {
        Some(d) => seq![seq!['D', ':'] + d],
        None => Seq::empty(),
    };
    let due: Seq<Seq<char>> = match v.due_date {
        Some(d) => seq![seq!['D', 'u', 'e', ':'] + d],
        None => Seq::empty(),
    };
    pri + desc + ctx + proj + tags + start + done + due
}

/// A word with a two-character prefix in front of a payload string.
fn prefixed2(a: char, b: char, payload: &str) -> (r: Vec<char>)
    ensures
        r@ == seq![a, b] + payload@,
{
    let mut r: Vec<char> = Vec::new();
    r.push(a);
    r.push(b);
    let mut pv = chars_of(payload);
    r.append(&mut pv);
    proof {
        assert(r@ =~= seq![a, b] + payload@);
    }
    r
}

/// Renders an item as one plain-text line: its pieces joined by single
/// spaces.
#[verifier::rlimit(100)]
#[verifier::spinoff_prover]
pub fn render_line(item: &TodoItem) -> (r: String)
    ensures
        r@ == join_words(line_pieces(item@)),
{
    let ghost v = item@;
    let ghost pri_s: Seq<Seq<char>> = match v.priority {
        Some(c) => seq![seq!['(', c, ')']],
        None => Seq::empty(),
    };
    let ghost desc_s: Seq<Seq<char>> = if v.description.len() > 0 {
        seq![v.description]
    } else {
        Seq::empty()
    };
    let ghost ctx_s: Seq<Seq<char>> = match v.context {
        Some(c) => seq![seq!['@'] + c],
        None => Seq::empty(),
    };
    let ghost proj_s: Seq<Seq<char>> = match v.project {
        Some(p) => seq![seq!['P', ':'] + p],
        None => Seq::empty(),
    };
    let ghost start_s: Seq<Seq<char>> = if v.start_date.len() > 0 {
        seq![seq!['S', ':'] + v.start_date]
    } else {
        Seq::empty()
    };
    let ghost done_s: Seq<Seq<char>> = match v.done_date {
        Some(d) => seq![seq!['D', ':'] + d],
        None => Seq::empty(),
    };
    let ghost due_s: Seq<Seq<char>> = match v.due_date {
        Some(d) => seq![seq!['D', 'u', 'e', ':'] + d],
        None => Seq::empty(),
    };
    let mut pieces: Vec<Vec<char>> = Vec::new();
    proof {
        assert(pieces.deep_view() =~~= Seq::<Seq<char>>::empty());
    }
    let ghost mut dv = pieces.deep_view();
    match &item.priority {
        Some(c) => {
            let mut w: Vec<char> = Vec::new();
            w.push('(');
            w.push(*c);
            w.push(')');
            pieces.push(w);
            proof {
                assert(w@ =~= seq!['(', v.priority->0, ')']);
                assert(pieces.deep_view() =~~= dv.push(w@));
            }
        },
        None => {},
    }
    proof {
        assert(pieces.deep_view() =~~= pri_s);
        dv = pieces.deep_view();
    }
    if !item.description.as_str().is_empty() {
        let w = chars_of(item.description.as_str());
        pieces.push(w);
        proof {
            assert(pieces.deep_view() =~~= dv.push(v.description));
        }
    }
    proof {
        assert(pieces.deep_view() =~~= pri_s + desc_s);
        dv = pieces.deep_view();
    }
    match &item.context {
        Some(c) => {
            let mut w: Vec<char> = Vec::new();
            w.push('@');
            let mut cv = chars_of(c.as_str());
            w.append(&mut cv);
            pieces.push(w);
            proof {
                assert(w@ =~= seq!['@'] + v.context->0);
                assert(pieces.deep_view() =~~= dv.push(w@));
            }
        },
        None => {},
    }
    proof {
        assert(pieces.deep_view() =~~= pri_s + desc_s + ctx_s);
        dv = pieces.deep_view();
    }
    match &item.project {
        Some(p) => {
            let w = prefixed2('P', ':', p.as_str());
            pieces.push(w);
            proof {
                assert(pieces.deep_view() =~~= dv.push(w@));
            }
        },
        None => {},
    }
    proof {
        assert(pieces.deep_view() =~~= pri_s + desc_s + ctx_s + proj_s);
        dv = pieces.deep_view();
    }
    let ghost before_tags = pieces.deep_view();
    let mut ti: usize = 0;
    while ti < item.tags.len()
        invariant
            0 <= ti <= item.tags.len(),
            item.tags@.len() == item.tags.len(),
            pieces.deep_view() =~~= before_tags + tag_pieces(item@.tags.subrange(0, ti as int)),
        decreases item.tags.len() - ti,
    {
        let ghost dv_old = pieces.deep_view();
        let w = prefixed2('T', ':', item.tags[ti].as_str());
        pieces.push(w);
        proof {
            assert(item@.tags[ti as int] == item.tags@[ti as int]@);
            let sub0 = item@.tags.subrange(0, ti as int);
            let sub1 = item@.tags.subrange(0, ti + 1 as int);
            assert(sub1.drop_last() =~= sub0);
            assert(sub1.last() == item@.tags[ti as int]);
            assert(tag_pieces(sub1) == tag_pieces(sub0).push(
                seq!['T', ':'] + item@.tags[ti as int],
            ));
            assert(pieces.deep_view() =~~= dv_old.push(w@));
            assert((before_tags + tag_pieces(sub0)).push(w@) =~= before_tags + tag_pieces(sub1));
            assert(pieces.deep_view() =~~= before_tags + tag_pieces(sub1));
        }
        ti += 1;
    }
    proof {
        assert(item@.tags.subrange(0, item.tags@.len() as int) =~= item@.tags);
        assert(pieces.deep_view() =~~= pri_s + desc_s + ctx_s + proj_s + tag_pieces(v.tags));
        dv = pieces.deep_view();
    }
    if !item.start_date.as_str().is_empty() {
        let w = prefixed2('S', ':', item.start_date.as_str());
        pieces.push(w);
        proof {
            assert(pieces.deep_view() =~~= dv.push(w@));
        }
    }
    proof {
        assert(pieces.deep_view() =~~= pri_s + desc_s + ctx_s + proj_s + tag_pieces(v.tags)
            + start_s);
        dv = pieces.deep_view();
    }
    match &item.done_date {
        Some(d) => {
            let w = prefixed2('D', ':', d.as_str());
            pieces.push(w);
            proof {
                assert(pieces.deep_view() =~~= dv.push(w@));
            }
        },
        None => {},
    }
    proof {
        assert(pieces.deep_view() =~~= pri_s + desc_s + ctx_s + proj_s + tag_pieces(v.tags)
            + start_s + done_s);
        dv = pieces.deep_view();
    }
    match &item.due_date {
        Some(d) => {
            let mut w: Vec<char> = Vec::new();
            w.push('D');
            w.push('u');
            w.push('e');
            w.push(':');
            let mut dvv = chars_of(d.as_str());
            w.append(&mut dvv);
            pieces.push(w);
            proof {
                assert(w@ =~= seq!['D', 'u', 'e', ':'] + v.due_date->0);
                assert(pieces.deep_view() =~~= dv.push(w@));
            }
        },
        None => {},
    }
    proof {
        assert(pieces.deep_view() =~~= pri_s + desc_s + ctx_s + proj_s + tag_pieces(v.tags)
            + start_s + done_s + due_s);
        assert(pieces.deep_view() =~~= line_pieces(v));
    }
    join_desc(&pieces)
}

} // verus!
