//! The structured store format.
//!
//! A collection persists as a JSON array of records with the fields
//! `priority`, `description`, `context`, `project`, `tags`,
//! `start_date`, `due_date` and `done_date`; the position is never
//! stored.  The renderer emits a compact canonical form; the parser
//! accepts that form with arbitrary blank space between tokens, fields
//! in this fixed order, and `due_date` optional.  Anything else is
//! malformed, and the loader treats malformed content as an empty
//! collection.

use vstd::prelude::*;

use crate::chars::{chars_of, push_char, string_from_chars};
use crate::{ItemView, TodoItem};

verus! {

/// The blank-space characters accepted between tokens.
pub open spec fn is_json_ws(c: char) -> bool {
    c == ' ' || c == '\t' || c == '\n' || c == '\r'
}

pub open spec fn skip_ws(s: Seq<char>) -> Seq<char>
    decreases s.len(),
{
    if s.len() > 0 && is_json_ws(s[0]) {
        skip_ws(s.drop_first())
    } else {
        s
    }
}

/// The hexadecimal digit of a value below 16, lower case.
pub open spec fn hex_char(n: int) -> char {
    if n < 10 {
        ((n + 0x30) as u8) as char
    } else {
        ((n + 0x57) as u8) as char
    }
}

pub open spec fn is_hex_char(c: char) -> bool {
    (0x30 <= (c as u32) && (c as u32) <= 0x39) || (0x61 <= (c as u32) && (c as u32) <= 0x66)
}

pub open spec fn hex_val(c: char) -> int {
    if (c as u32) <= 0x39 {
        (c as u32) - 0x30
    } else {
        (c as u32) - 0x57
    }
}

/// How one character is written inside a string literal: quote,
/// backslash and the common controls get two-character escapes, other
/// controls a `\u00XX` escape, and everything else stands as itself.
pub open spec fn esc_char(c: char) -> Seq<char> {
    if c == '"' {
        seq!['\\', '"']
    } else if c == '\\' {
        seq!['\\', '\\']
    } else if c == '\n' {
        seq!['\\', 'n']
    } else if c == '\r' {
        seq!['\\', 'r']
    } else if c == '\t' {
        seq!['\\', 't']
    } else if (c as u32) < 0x20 {
        seq!['\\', 'u', '0', '0', hex_char(((c as u32) as int) / 16), hex_char(((c as u32) as int) % 16)]
    } else {
        seq![c]
    }
}

/// A string's characters, escaped.
pub open spec fn escstr(s: Seq<char>) -> Seq<char>
    decreases s.len(),
{
    if s.len() == 0 {
        Seq::empty()
    } else {
        escstr(s.drop_last()) + esc_char(s.last())
    }
}

pub proof fn lemma_escstr_concat(a: Seq<char>, b: Seq<char>)
    ensures
        escstr(a + b) == escstr(a) + escstr(b),
    decreases b.len(),
{
    if b.len() == 0 {
        assert(a + b =~= a);
        assert(escstr(a) + escstr(b) =~= escstr(a));
    } else {
        lemma_escstr_concat(a, b.drop_last());
        assert((a + b).drop_last() =~= a + b.drop_last());
        assert((a + b).last() == b.last());
        assert(escstr(a + b) == escstr(a) + escstr(b.drop_last()) + esc_char(b.last()));
        assert(escstr(a) + escstr(b.drop_last()) + esc_char(b.last()) =~= escstr(a) + (escstr(
            b.drop_last(),
        ) + esc_char(b.last())));
    }
}

/// A quoted string literal.
pub open spec fn jstr(s: Seq<char>) -> Seq<char> {
    seq!['"'] + escstr(s) + seq!['"']
}

/// A nullable string: `null` or a quoted literal.
pub open spec fn jopt(o: Option<Seq<char>>) -> Seq<char> {
    match o {
        None => seq!['n', 'u', 'l', 'l'],
        Some(w) => jstr(w),
    }
}

/// The items of a tag array, separated by commas.
pub open spec fn jtags_items(ts: Seq<Seq<char>>) -> Seq<char>
    decreases ts.len(),
{
    if ts.len() == 0 {
        Seq::empty()
    } else if ts.len() == 1 {
        jstr(ts[0])
    } else {
        jtags_items(ts.drop_last()) + seq![','] + jstr(ts.last())
    }
}

/// A tag array.
pub open spec fn jtags(ts: Seq<Seq<char>>) -> Seq<char> {
    seq!['['] + jtags_items(ts) + seq![']']
}

pub open spec fn key_priority() -> Seq<char> {
    seq!['"', 'p', 'r', 'i', 'o', 'r', 'i', 't', 'y', '"', ':']
}

pub open spec fn key_description() -> Seq<char> {
    seq!['"', 'd', 'e', 's', 'c', 'r', 'i', 'p', 't', 'i', 'o', 'n', '"', ':']
}

pub open spec fn key_context() -> Seq<char> {
    seq!['"', 'c', 'o', 'n', 't', 'e', 'x', 't', '"', ':']
}

pub open spec fn key_project() -> Seq<char> {
    seq!['"', 'p', 'r', 'o', 'j', 'e', 'c', 't', '"', ':']
}

pub open spec fn key_tags() -> Seq<char> {
    seq!['"', 't', 'a', 'g', 's', '"', ':']
}

pub open spec fn key_start_date() -> Seq<char> {
    seq!['"', 's', 't', 'a', 'r', 't', '_', 'd', 'a', 't', 'e', '"', ':']
}

pub open spec fn key_due_date() -> Seq<char> {
    seq!['"', 'd', 'u', 'e', '_', 'd', 'a', 't', 'e', '"', ':']
}

pub open spec fn key_done_date() -> Seq<char> {
    seq!['"', 'd', 'o', 'n', 'e', '_', 'd', 'a', 't', 'e', '"', ':']
}

/// The priority as a nullable one-character string.
pub open spec fn pri_opt(p: Option<char>) -> Option<Seq<char>> {
    match p {
        Some(c) => Some(seq![c]),
        None => None,
    }
}

/// One record in the canonical store form.  The position is not
/// persisted.
#[verifier::opaque]
pub open spec fn render_item_spec(v: ItemView) -> Seq<char> {
    seq!['{'] + key_priority() + jopt(pri_opt(v.priority)) + seq![','] + key_description() + jstr(
        v.description,
    ) + seq![','] + key_context() + jopt(v.context) + seq![','] + key_project() + jopt(v.project)
        + seq![','] + key_tags() + jtags(v.tags) + seq![','] + key_start_date() + jstr(
        v.start_date,
    ) + seq![','] + key_due_date() + jopt(v.due_date) + seq![','] + key_done_date() + jopt(
        v.done_date,
    ) + seq!['}']
}

/// The record rendering, written out.
#[verifier::rlimit(100)]
proof fn lemma_render_item_chain(v: ItemView)
    ensures
        render_item_spec(v) == seq!['{'] + key_priority() + jopt(pri_opt(v.priority)) + seq![',']
            + key_description() + jstr(v.description) + seq![','] + key_context() + jopt(v.context)
            + seq![','] + key_project() + jopt(v.project) + seq![','] + key_tags() + jtags(v.tags)
            + seq![','] + key_start_date() + jstr(v.start_date) + seq![','] + key_due_date()
            + jopt(v.due_date) + seq![','] + key_done_date() + jopt(v.done_date) + seq!['}'],
{
    reveal(render_item_spec);
}

/// The records of a collection, separated by commas.
pub open spec fn render_items_spec(vs: Seq<ItemView>) -> Seq<char>
    decreases vs.len(),
{
    if vs.len() == 0 {
        Seq::empty()
    } else if vs.len() == 1 {
        render_item_spec(vs[0])
    } else {
        render_items_spec(vs.drop_last()) + seq![','] + render_item_spec(vs.last())
    }
}

/// A whole collection in the canonical store form.
pub open spec fn render_collection_spec(vs: Seq<ItemView>) -> Seq<char> {
    seq!['['] + render_items_spec(vs) + seq![']']
}

/// The views of a collection's items.
pub open spec fn views_of(s: Seq<TodoItem>) -> Seq<ItemView> {
    s.map_values(|t: TodoItem| t@)
}

/// Appends the escaped form of `w` to `out`.
fn push_escaped(out: &mut Vec<char>, w: &Vec<char>)
    ensures
        final(out)@ == old(out)@ + escstr(w@),
{
    let ghost base = out@;
    let mut i: usize = 0;
    proof {
        assert(w@.subrange(0, 0) =~= Seq::<char>::empty());
        assert(base + escstr(w@.subrange(0, 0)) =~= base);
    }
    while i < w.len()
        invariant
            0 <= i <= w@.len(),
            w@.len() == w.len(),
            out@ == base + escstr(w@.subrange(0, i as int)),
        decreases w.len() - i,
    {
        let c = w[i];
        let u = c as u32;
        let ghost pre = out@;
        if c == '"' {
            out.push('\\');
            out.push('"');
        } else if c == '\\' {
            out.push('\\');
            out.push('\\');
        } else if c == '\n' {
            out.push('\\');
            out.push('n');
        } else if c == '\r' {
            out.push('\\');
            out.push('r');
        } else if c == '\t' {
            out.push('\\');
            out.push('t');
        } else if u < 0x20 {
            out.push('\\');
            out.push('u');
            out.push('0');
            out.push('0');
            let hi = u / 16;
            let lo = u % 16;
            let hic = if hi < 10 {
                ((hi + 0x30) as u8) as char
            } else {
                ((hi + 0x57) as u8) as char
            };
            let loc = if lo < 10 {
                ((lo + 0x30) as u8) as char
            } else {
                ((lo + 0x57) as u8) as char
            };
            out.push(hic);
            out.push(loc);
        } else {
            out.push(c);
        }
        proof {
            assert(out@ =~= pre + esc_char(w@[i as int]));
            let sub1 = w@.subrange(0, i + 1 as int);
            assert(sub1.drop_last() =~= w@.subrange(0, i as int));
            assert(sub1.last() == w@[i as int]);
            assert(out@ =~= base + escstr(sub1));
        }
        i += 1;
    }
    proof {
        assert(w@.subrange(0, w@.len() as int) =~= w@);
    }
}

/// Appends a quoted string literal.
fn push_jstr(out: &mut Vec<char>, w: &str)
    ensures
        final(out)@ == old(out)@ + jstr(w@),
{
    let ghost base = out@;
    out.push('"');
    let wv = chars_of(w);
    push_escaped(out, &wv);
    out.push('"');
    proof {
        assert(out@ =~= base + jstr(w@));
    }
}

/// Appends `null` or a quoted literal.
fn push_jopt(out: &mut Vec<char>, o: &Option<String>)
    ensures
        final(out)@ == old(out)@ + jopt(o.deep_view()),
{
    let ghost base = out@;
    match o {
        None => {
            out.push('n');
            out.push('u');
            out.push('l');
            out.push('l');
            proof {
                assert(out@ =~= base + jopt(o.deep_view()));
            }
        },
        Some(w) => {
            push_jstr(out, w.as_str());
            proof {
                assert(out@ =~= base + jopt(o.deep_view()));
            }
        },
    }
}

/// Appends a literal given as a string slice.
fn push_lit(out: &mut Vec<char>, lit: &str)
    ensures
        final(out)@ == old(out)@ + lit@,
{
    let mut lv = chars_of(lit);
    out.append(&mut lv);
}

/// Appends the tag array.
fn push_jtags(out: &mut Vec<char>, ts: &Vec<String>)
    ensures
        final(out)@ == old(out)@ + jtags(ts.deep_view()),
{
    let ghost base = out@;
    out.push('[');
    let mut i: usize = 0;
    proof {
        assert(ts.deep_view().subrange(0, 0) =~= Seq::<Seq<char>>::empty());
        assert(out@ =~= base + seq!['['] + jtags_items(ts.deep_view().subrange(0, 0)));
    }
    while i < ts.len()
        invariant
            0 <= i <= ts@.len(),
            ts@.len() == ts.len(),
            out@ == base + seq!['['] + jtags_items(ts.deep_view().subrange(0, i as int)),
        decreases ts.len() - i,
    {
        let ghost pre = out@;
        if i > 0 {
            out.push(',');
        }
        push_jstr(out, ts[i].as_str());
        proof {
            assert(ts.deep_view()[i as int] == ts@[i as int]@);
            let sub1 = ts.deep_view().subrange(0, i + 1 as int);
            assert(sub1.drop_last() =~= ts.deep_view().subrange(0, i as int));
            assert(sub1.last() == ts.deep_view()[i as int]);
            assert(out@ =~= base + seq!['['] + jtags_items(sub1));
        }
        i += 1;
    }
    out.push(']');
    proof {
        assert(ts.deep_view().subrange(0, ts@.len() as int) =~= ts.deep_view());
        assert(out@ =~= base + jtags(ts.deep_view()));
    }
}

/// Appends one record.
#[verifier::rlimit(100)]
#[verifier::spinoff_prover]
fn push_item(out: &mut Vec<char>, item: &TodoItem)
    ensures
        final(out)@ == old(out)@ + render_item_spec(item@),
{
    let ghost base = out@;
    let ghost pre = out@;
    out.push('{');
    proof {
        assert(out@ =~= pre + seq!['{']);
        assert(out@ == base + seq!['{']);
    }
    let ghost pre = out@;
    push_lit(out, "\"priority\":");
    proof {
        reveal_strlit("\"priority\":");
        assert("\"priority\":"@ =~= key_priority());
        vstd::seq_lib::lemma_concat_associative(base, seq!['{'], key_priority());
        assert(out@ == base + (seq!['{'] + key_priority()));
    }
    let ghost pre = out@;
    let pri: Option<String> = match &item.priority {
        Some(c) => {
            let mut sp = String::new();
            push_char(&mut sp, *c);
            Some(sp)
        },
        None => None,
    };
    proof {
        assert(pri.deep_view() == pri_opt(item@.priority));
    }
    push_jopt(out, &pri);
    proof {
        vstd::seq_lib::lemma_concat_associative(base, seq!['{'] + key_priority(), jopt(pri_opt(item@.priority)));
        assert(out@ == base + (seq!['{'] + key_priority() + jopt(pri_opt(item@.priority))));
    }
    let ghost pre = out@;
    out.push(',');
    proof {
        assert(out@ =~= pre + seq![',']);
        vstd::seq_lib::lemma_concat_associative(base, seq!['{'] + key_priority() + jopt(pri_opt(item@.priority)), seq![',']);
        assert(out@ == base + (seq!['{'] + key_priority() + jopt(pri_opt(item@.priority)) + seq![',']));
    }
    let ghost pre = out@;
    push_lit(out, "\"description\":");
    proof {
        reveal_strlit("\"description\":");
        assert("\"description\":"@ =~= key_description());
        vstd::seq_lib::lemma_concat_associative(base, seq!['{'] + key_priority() + jopt(pri_opt(item@.priority)) + seq![','], key_description());
        assert(out@ == base + (seq!['{'] + key_priority() + jopt(pri_opt(item@.priority)) + seq![','] + key_description()));
    }
    let ghost pre = out@;
    push_jstr(out, item.description.as_str());
    proof {
        vstd::seq_lib::lemma_concat_associative(base, seq!['{'] + key_priority() + jopt(pri_opt(item@.priority)) + seq![','] + key_description(), jstr(item@.description));
        assert(out@ == base + (seq!['{'] + key_priority() + jopt(pri_opt(item@.priority)) + seq![','] + key_description() + jstr(item@.description)));
    }
    let ghost pre = out@;
    out.push(',');
    proof {
        assert(out@ =~= pre + seq![',']);
        vstd::seq_lib::lemma_concat_associative(base, seq!['{'] + key_priority() + jopt(pri_opt(item@.priority)) + seq![','] + key_description() + jstr(item@.description), seq![',']);
        assert(out@ == base + (seq!['{'] + key_priority() + jopt(pri_opt(item@.priority)) + seq![','] + key_description() + jstr(item@.description) + seq![',']));
    }
    let ghost pre = out@;
    push_lit(out, "\"context\":");
    proof {
        reveal_strlit("\"context\":");
        assert("\"context\":"@ =~= key_context());
        vstd::seq_lib::lemma_concat_associative(base, seq!['{'] + key_priority() + jopt(pri_opt(item@.priority)) + seq![','] + key_description() + jstr(item@.description) + seq![','], key_context());
        assert(out@ == base + (seq!['{'] + key_priority() + jopt(pri_opt(item@.priority)) + seq![','] + key_description() + jstr(item@.description) + seq![','] + key_context()));
    }
    let ghost pre = out@;
    push_jopt(out, &item.context);
    proof {
        vstd::seq_lib::lemma_concat_associative(base, seq!['{'] + key_priority() + jopt(pri_opt(item@.priority)) + seq![','] + key_description() + jstr(item@.description) + seq![','] + key_context(), jopt(item@.context));
        assert(out@ == base + (seq!['{'] + key_priority() + jopt(pri_opt(item@.priority)) + seq![','] + key_description() + jstr(item@.description) + seq![','] + key_context() + jopt(item@.context)));
    }
    let ghost pre = out@;
    out.push(',');
    proof {
        assert(out@ =~= pre + seq![',']);
        vstd::seq_lib::lemma_concat_associative(base, seq!['{'] + key_priority() + jopt(pri_opt(item@.priority)) + seq![','] + key_description() + jstr(item@.description) + seq![','] + key_context() + jopt(item@.context), seq![',']);
        assert(out@ == base + (seq!['{'] + key_priority() + jopt(pri_opt(item@.priority)) + seq![','] + key_description() + jstr(item@.description) + seq![','] + key_context() + jopt(item@.context) + seq![',']));
    }
    let ghost pre = out@;
    push_lit(out, "\"project\":");
    proof {
        reveal_strlit("\"project\":");
        assert("\"project\":"@ =~= key_project());
        vstd::seq_lib::lemma_concat_associative(base, seq!['{'] + key_priority() + jopt(pri_opt(item@.priority)) + seq![','] + key_description() + jstr(item@.description) + seq![','] + key_context() + jopt(item@.context) + seq![','], key_project());
        assert(out@ == base + (seq!['{'] + key_priority() + jopt(pri_opt(item@.priority)) + seq![','] + key_description() + jstr(item@.description) + seq![','] + key_context() + jopt(item@.context) + seq![','] + key_project()));
    }
    let ghost pre = out@;
    push_jopt(out, &item.project);
    proof {
        vstd::seq_lib::lemma_concat_associative(base, seq!['{'] + key_priority() + jopt(pri_opt(item@.priority)) + seq![','] + key_description() + jstr(item@.description) + seq![','] + key_context() + jopt(item@.context) + seq![','] + key_project(), jopt(item@.project));
        assert(out@ == base + (seq!['{'] + key_priority() + jopt(pri_opt(item@.priority)) + seq![','] + key_description() + jstr(item@.description) + seq![','] + key_context() + jopt(item@.context) + seq![','] + key_project() + jopt(item@.project)));
    }
    let ghost pre = out@;
    out.push(',');
    proof {
        assert(out@ =~= pre + seq![',']);
        vstd::seq_lib::lemma_concat_associative(base, seq!['{'] + key_priority() + jopt(pri_opt(item@.priority)) + seq![','] + key_description() + jstr(item@.description) + seq![','] + key_context() + jopt(item@.context) + seq![','] + key_project() + jopt(item@.project), seq![',']);
        assert(out@ == base + (seq!['{'] + key_priority() + jopt(pri_opt(item@.priority)) + seq![','] + key_description() + jstr(item@.description) + seq![','] + key_context() + jopt(item@.context) + seq![','] + key_project() + jopt(item@.project) + seq![',']));
    }
    let ghost pre = out@;
    push_lit(out, "\"tags\":");
    proof {
        reveal_strlit("\"tags\":");
        assert("\"tags\":"@ =~= key_tags());
        vstd::seq_lib::lemma_concat_associative(base, seq!['{'] + key_priority() + jopt(pri_opt(item@.priority)) + seq![','] + key_description() + jstr(item@.description) + seq![','] + key_context() + jopt(item@.context) + seq![','] + key_project() + jopt(item@.project) + seq![','], key_tags());
        assert(out@ == base + (seq!['{'] + key_priority() + jopt(pri_opt(item@.priority)) + seq![','] + key_description() + jstr(item@.description) + seq![','] + key_context() + jopt(item@.context) + seq![','] + key_project() + jopt(item@.project) + seq![','] + key_tags()));
    }
    let ghost pre = out@;
    push_jtags(out, &item.tags);
    proof {
        vstd::seq_lib::lemma_concat_associative(base, seq!['{'] + key_priority() + jopt(pri_opt(item@.priority)) + seq![','] + key_description() + jstr(item@.description) + seq![','] + key_context() + jopt(item@.context) + seq![','] + key_project() + jopt(item@.project) + seq![','] + key_tags(), jtags(item@.tags));
        assert(out@ == base + (seq!['{'] + key_priority() + jopt(pri_opt(item@.priority)) + seq![','] + key_description() + jstr(item@.description) + seq![','] + key_context() + jopt(item@.context) + seq![','] + key_project() + jopt(item@.project) + seq![','] + key_tags() + jtags(item@.tags)));
    }
    let ghost pre = out@;
    out.push(',');
    proof {
        assert(out@ =~= pre + seq![',']);
        vstd::seq_lib::lemma_concat_associative(base, seq!['{'] + key_priority() + jopt(pri_opt(item@.priority)) + seq![','] + key_description() + jstr(item@.description) + seq![','] + key_context() + jopt(item@.context) + seq![','] + key_project() + jopt(item@.project) + seq![','] + key_tags() + jtags(item@.tags), seq![',']);
        assert(out@ == base + (seq!['{'] + key_priority() + jopt(pri_opt(item@.priority)) + seq![','] + key_description() + jstr(item@.description) + seq![','] + key_context() + jopt(item@.context) + seq![','] + key_project() + jopt(item@.project) + seq![','] + key_tags() + jtags(item@.tags) + seq![',']));
    }
    let ghost pre = out@;
    push_lit(out, "\"start_date\":");
    proof {
        reveal_strlit("\"start_date\":");
        assert("\"start_date\":"@ =~= key_start_date());
        vstd::seq_lib::lemma_concat_associative(base, seq!['{'] + key_priority() + jopt(pri_opt(item@.priority)) + seq![','] + key_description() + jstr(item@.description) + seq![','] + key_context() + jopt(item@.context) + seq![','] + key_project() + jopt(item@.project) + seq![','] + key_tags() + jtags(item@.tags) + seq![','], key_start_date());
        assert(out@ == base + (seq!['{'] + key_priority() + jopt(pri_opt(item@.priority)) + seq![','] + key_description() + jstr(item@.description) + seq![','] + key_context() + jopt(item@.context) + seq![','] + key_project() + jopt(item@.project) + seq![','] + key_tags() + jtags(item@.tags) + seq![','] + key_start_date()));
    }
    let ghost pre = out@;
    push_jstr(out, item.start_date.as_str());
    proof {
        vstd::seq_lib::lemma_concat_associative(base, seq!['{'] + key_priority() + jopt(pri_opt(item@.priority)) + seq![','] + key_description() + jstr(item@.description) + seq![','] + key_context() + jopt(item@.context) + seq![','] + key_project() + jopt(item@.project) + seq![','] + key_tags() + jtags(item@.tags) + seq![','] + key_start_date(), jstr(item@.start_date));
        assert(out@ == base + (seq!['{'] + key_priority() + jopt(pri_opt(item@.priority)) + seq![','] + key_description() + jstr(item@.description) + seq![','] + key_context() + jopt(item@.context) + seq![','] + key_project() + jopt(item@.project) + seq![','] + key_tags() + jtags(item@.tags) + seq![','] + key_start_date() + jstr(item@.start_date)));
    }
    let ghost pre = out@;
    out.push(',');
    proof {
        assert(out@ =~= pre + seq![',']);
        vstd::seq_lib::lemma_concat_associative(base, seq!['{'] + key_priority() + jopt(pri_opt(item@.priority)) + seq![','] + key_description() + jstr(item@.description) + seq![','] + key_context() + jopt(item@.context) + seq![','] + key_project() + jopt(item@.project) + seq![','] + key_tags() + jtags(item@.tags) + seq![','] + key_start_date() + jstr(item@.start_date), seq![',']);
        assert(out@ == base + (seq!['{'] + key_priority() + jopt(pri_opt(item@.priority)) + seq![','] + key_description() + jstr(item@.description) + seq![','] + key_context() + jopt(item@.context) + seq![','] + key_project() + jopt(item@.project) + seq![','] + key_tags() + jtags(item@.tags) + seq![','] + key_start_date() + jstr(item@.start_date) + seq![',']));
    }
    let ghost pre = out@;
    push_lit(out, "\"due_date\":");
    proof {
        reveal_strlit("\"due_date\":");
        assert("\"due_date\":"@ =~= key_due_date());
        vstd::seq_lib::lemma_concat_associative(base, seq!['{'] + key_priority() + jopt(pri_opt(item@.priority)) + seq![','] + key_description() + jstr(item@.description) + seq![','] + key_context() + jopt(item@.context) + seq![','] + key_project() + jopt(item@.project) + seq![','] + key_tags() + jtags(item@.tags) + seq![','] + key_start_date() + jstr(item@.start_date) + seq![','], key_due_date());
        assert(out@ == base + (seq!['{'] + key_priority() + jopt(pri_opt(item@.priority)) + seq![','] + key_description() + jstr(item@.description) + seq![','] + key_context() + jopt(item@.context) + seq![','] + key_project() + jopt(item@.project) + seq![','] + key_tags() + jtags(item@.tags) + seq![','] + key_start_date() + jstr(item@.start_date) + seq![','] + key_due_date()));
    }
    let ghost pre = out@;
    push_jopt(out, &item.due_date);
    proof {
        vstd::seq_lib::lemma_concat_associative(base, seq!['{'] + key_priority() + jopt(pri_opt(item@.priority)) + seq![','] + key_description() + jstr(item@.description) + seq![','] + key_context() + jopt(item@.context) + seq![','] + key_project() + jopt(item@.project) + seq![','] + key_tags() + jtags(item@.tags) + seq![','] + key_start_date() + jstr(item@.start_date) + seq![','] + key_due_date(), jopt(item@.due_date));
        assert(out@ == base + (seq!['{'] + key_priority() + jopt(pri_opt(item@.priority)) + seq![','] + key_description() + jstr(item@.description) + seq![','] + key_context() + jopt(item@.context) + seq![','] + key_project() + jopt(item@.project) + seq![','] + key_tags() + jtags(item@.tags) + seq![','] + key_start_date() + jstr(item@.start_date) + seq![','] + key_due_date() + jopt(item@.due_date)));
    }
    let ghost pre = out@;
    out.push(',');
    proof {
        assert(out@ =~= pre + seq![',']);
        vstd::seq_lib::lemma_concat_associative(base, seq!['{'] + key_priority() + jopt(pri_opt(item@.priority)) + seq![','] + key_description() + jstr(item@.description) + seq![','] + key_context() + jopt(item@.context) + seq![','] + key_project() + jopt(item@.project) + seq![','] + key_tags() + jtags(item@.tags) + seq![','] + key_start_date() + jstr(item@.start_date) + seq![','] + key_due_date() + jopt(item@.due_date), seq![',']);
        assert(out@ == base + (seq!['{'] + key_priority() + jopt(pri_opt(item@.priority)) + seq![','] + key_description() + jstr(item@.description) + seq![','] + key_context() + jopt(item@.context) + seq![','] + key_project() + jopt(item@.project) + seq![','] + key_tags() + jtags(item@.tags) + seq![','] + key_start_date() + jstr(item@.start_date) + seq![','] + key_due_date() + jopt(item@.due_date) + seq![',']));
    }
    let ghost pre = out@;
    push_lit(out, "\"done_date\":");
    proof {
        reveal_strlit("\"done_date\":");
        assert("\"done_date\":"@ =~= key_done_date());
        vstd::seq_lib::lemma_concat_associative(base, seq!['{'] + key_priority() + jopt(pri_opt(item@.priority)) + seq![','] + key_description() + jstr(item@.description) + seq![','] + key_context() + jopt(item@.context) + seq![','] + key_project() + jopt(item@.project) + seq![','] + key_tags() + jtags(item@.tags) + seq![','] + key_start_date() + jstr(item@.start_date) + seq![','] + key_due_date() + jopt(item@.due_date) + seq![','], key_done_date());
        assert(out@ == base + (seq!['{'] + key_priority() + jopt(pri_opt(item@.priority)) + seq![','] + key_description() + jstr(item@.description) + seq![','] + key_context() + jopt(item@.context) + seq![','] + key_project() + jopt(item@.project) + seq![','] + key_tags() + jtags(item@.tags) + seq![','] + key_start_date() + jstr(item@.start_date) + seq![','] + key_due_date() + jopt(item@.due_date) + seq![','] + key_done_date()));
    }
    let ghost pre = out@;
    push_jopt(out, &item.done_date);
    proof {
        vstd::seq_lib::lemma_concat_associative(base, seq!['{'] + key_priority() + jopt(pri_opt(item@.priority)) + seq![','] + key_description() + jstr(item@.description) + seq![','] + key_context() + jopt(item@.context) + seq![','] + key_project() + jopt(item@.project) + seq![','] + key_tags() + jtags(item@.tags) + seq![','] + key_start_date() + jstr(item@.start_date) + seq![','] + key_due_date() + jopt(item@.due_date) + seq![','] + key_done_date(), jopt(item@.done_date));
        assert(out@ == base + (seq!['{'] + key_priority() + jopt(pri_opt(item@.priority)) + seq![','] + key_description() + jstr(item@.description) + seq![','] + key_context() + jopt(item@.context) + seq![','] + key_project() + jopt(item@.project) + seq![','] + key_tags() + jtags(item@.tags) + seq![','] + key_start_date() + jstr(item@.start_date) + seq![','] + key_due_date() + jopt(item@.due_date) + seq![','] + key_done_date() + jopt(item@.done_date)));
    }
    let ghost pre = out@;
    out.push('}');
    proof {
        assert(out@ =~= pre + seq!['}']);
        vstd::seq_lib::lemma_concat_associative(base, seq!['{'] + key_priority() + jopt(pri_opt(item@.priority)) + seq![','] + key_description() + jstr(item@.description) + seq![','] + key_context() + jopt(item@.context) + seq![','] + key_project() + jopt(item@.project) + seq![','] + key_tags() + jtags(item@.tags) + seq![','] + key_start_date() + jstr(item@.start_date) + seq![','] + key_due_date() + jopt(item@.due_date) + seq![','] + key_done_date() + jopt(item@.done_date), seq!['}']);
        assert(out@ == base + (seq!['{'] + key_priority() + jopt(pri_opt(item@.priority)) + seq![','] + key_description() + jstr(item@.description) + seq![','] + key_context() + jopt(item@.context) + seq![','] + key_project() + jopt(item@.project) + seq![','] + key_tags() + jtags(item@.tags) + seq![','] + key_start_date() + jstr(item@.start_date) + seq![','] + key_due_date() + jopt(item@.due_date) + seq![','] + key_done_date() + jopt(item@.done_date) + seq!['}']));
    }
    proof {
        lemma_render_item_chain(item@);
        assert(out@ == base + render_item_spec(item@));
    }
}

/// Renders a collection in the canonical store form.
pub fn render_collection(items: &Vec<TodoItem>) -> (r: String)
    ensures
        r@ == render_collection_spec(views_of(items@)),
{
    let mut out: Vec<char> = Vec::new();
    out.push('[');
    let mut i: usize = 0;
    proof {
        assert(views_of(items@).subrange(0, 0) =~= Seq::<ItemView>::empty());
        assert(out@ =~= seq!['['] + render_items_spec(views_of(items@).subrange(0, 0)));
    }
    while i < items.len()
        invariant
            0 <= i <= items@.len(),
            items@.len() == items.len(),
            out@ == seq!['['] + render_items_spec(views_of(items@).subrange(0, i as int)),
        decreases items.len() - i,
    {
        if i > 0 {
            out.push(',');
        }
        push_item(&mut out, &items[i]);
        proof {
            assert(views_of(items@)[i as int] == items@[i as int]@);
            let sub1 = views_of(items@).subrange(0, i + 1 as int);
            assert(sub1.drop_last() =~= views_of(items@).subrange(0, i as int));
            assert(sub1.last() == views_of(items@)[i as int]);
            assert(out@ =~= seq!['['] + render_items_spec(sub1));
        }
        i += 1;
    }
    out.push(']');
    proof {
        assert(views_of(items@).subrange(0, items@.len() as int) =~= views_of(items@));
        assert(out@ =~= render_collection_spec(views_of(items@)));
    }
    string_from_chars(&out)
}

/// Renders a single record; what one item looks like in the store.
pub fn render_item(item: &TodoItem) -> (r: String)
    ensures
        r@ == render_item_spec(item@),
{
    let mut out: Vec<char> = Vec::new();
    push_item(&mut out, item);
    string_from_chars(&out)
}


// ---------------------------------------------------------------------
// Parsing.  Each spec parser consumes a prefix of its input and yields
// the parsed value with the remaining suffix; the exec parser walks an
// index and refines the spec parser at every step.
// ---------------------------------------------------------------------

/// The character a short escape stands for.
pub open spec fn unesc(e: char) -> char {
    if e == '"' {
        '"'
    } else if e == '\\' {
        '\\'
    } else if e == 'n' {
        '\n'
    } else if e == 'r' {
        '\r'
    } else {
        '\t'
    }
}

/// The body of a string literal, after the opening quote: characters
/// up to the closing quote, with escapes resolved.  Raw controls and
/// unknown escapes are malformed; of the `\u` escapes exactly the
/// `\u00XX` forms below 0x20 that the renderer emits are accepted.
pub open spec fn parse_str_body(s: Seq<char>) -> Option<(Seq<char>, Seq<char>)>
    decreases s.len(),
{
    if s.len() == 0 {
        None
    } else if s[0] == '"' {
        Some((Seq::empty(), s.skip(1)))
    } else if s[0] == '\\' {
        if s.len() < 2 {
            None
        } else {
            let e = s[1];
            if e == '"' || e == '\\' || e == 'n' || e == 'r' || e == 't' {
                match parse_str_body(s.skip(2)) {
                    Some((w, r)) => Some((seq![unesc(e)] + w, r)),
                    None => None,
                }
            } else if e == 'u' {
                if s.len() >= 6 && s[2] == '0' && s[3] == '0' && is_hex_char(s[4]) && is_hex_char(
                    s[5],
                ) && hex_val(s[4]) * 16 + hex_val(s[5]) < 0x20 {
                    match parse_str_body(s.skip(6)) {
                        Some((w, r)) => Some(
                            (seq![((hex_val(s[4]) * 16 + hex_val(s[5])) as u8) as char] + w, r),
                        ),
                        None => None,
                    }
                } else {
                    None
                }
            } else {
                None
            }
        }
    } else if (s[0] as u32) < 0x20 {
        None
    } else {
        match parse_str_body(s.skip(1)) {
            Some((w, r)) => Some((seq![s[0]] + w, r)),
            None => None,
        }
    }
}

/// A quoted string literal.
pub open spec fn parse_jstr(s: Seq<char>) -> Option<(Seq<char>, Seq<char>)> {
    if s.len() > 0 && s[0] == '"' {
        parse_str_body(s.skip(1))
    } else {
        None
    }
}

/// `null` or a quoted string literal.
pub open spec fn parse_nullstr(s: Seq<char>) -> Option<(Option<Seq<char>>, Seq<char>)> {
    if s.len() >= 4 && s.subrange(0, 4) == seq!['n', 'u', 'l', 'l'] {
        Some((None, s.skip(4)))
    } else {
        match parse_jstr(s) {
            Some((w, r)) => Some((Some(w), r)),
            None => None,
        }
    }
}

/// One or more comma-separated string literals, ended by `]`.
pub open spec fn parse_tag_items(s: Seq<char>) -> Option<(Seq<Seq<char>>, Seq<char>)>
    decreases s.len(),
{
    match parse_jstr(s) {
        None => None,
        Some((w, r)) => {
            let t = skip_ws(r);
            if t.len() >= 1 && t[0] == ',' {
                let nxt = skip_ws(t.skip(1));
                if nxt.len() < s.len() {
                    match parse_tag_items(nxt) {
                        Some((ws2, r2)) => Some((seq![w] + ws2, r2)),
                        None => None,
                    }
                } else {
                    None
                }
            } else if t.len() >= 1 && t[0] == ']' {
                Some((seq![w], t.skip(1)))
            } else {
                None
            }
        },
    }
}

/// A string array.
pub open spec fn parse_tags(s: Seq<char>) -> Option<(Seq<Seq<char>>, Seq<char>)> {
    if s.len() >= 1 && s[0] == '[' {
        let t = skip_ws(s.skip(1));
        if t.len() >= 1 && t[0] == ']' {
            Some((Seq::empty(), t.skip(1)))
        } else {
            parse_tag_items(t)
        }
    } else {
        None
    }
}

/// A fixed key literal after optional blank space.
pub open spec fn parse_key(s: Seq<char>, key: Seq<char>) -> Option<Seq<char>> {
    let t = skip_ws(s);
    if t.len() >= key.len() && t.subrange(0, key.len() as int) == key {
        Some(t.skip(key.len() as int))
    } else {
        None
    }
}

/// A comma after optional blank space.
pub open spec fn parse_comma(s: Seq<char>) -> Option<Seq<char>> {
    let t = skip_ws(s);
    if t.len() >= 1 && t[0] == ',' {
        Some(t.skip(1))
    } else {
        None
    }
}

pub open spec fn parse_field_nullstr(s: Seq<char>, key: Seq<char>) -> Option<
    (Option<Seq<char>>, Seq<char>),
> {
    match parse_key(s, key) {
        None => None,
        Some(r) => parse_nullstr(skip_ws(r)),
    }
}

pub open spec fn parse_field_str(s: Seq<char>, key: Seq<char>) -> Option<(Seq<char>, Seq<char>)> {
    match parse_key(s, key) {
        None => None,
        Some(r) => parse_jstr(skip_ws(r)),
    }
}

pub open spec fn parse_field_tags(s: Seq<char>, key: Seq<char>) -> Option<
    (Seq<Seq<char>>, Seq<char>),
> {
    match parse_key(s, key) {
        None => None,
        Some(r) => parse_tags(skip_ws(r)),
    }
}

/// The tail of a record from the `due_date` or `done_date` key on,
/// given the fields parsed so far: `due_date` may be absent.
pub open spec fn parse_item_tail(
    s: Seq<char>,
    pri: Option<char>,
    desc: Seq<char>,
    ctx: Option<Seq<char>>,
    proj: Option<Seq<char>>,
    tags: Seq<Seq<char>>,
    start: Seq<char>,
) -> Option<(ItemView, Seq<char>)> {
    let due_try = parse_field_nullstr(s, key_due_date());
    let after_due = match due_try {
        Some((due, r)) => match parse_comma(r) {
            Some(r2) => Some((Some(due), r2)),
            None => None,
        },
        None => Some((None, s)),
    };
    match after_due {
        None => None,
        Some((due2, r3)) => match parse_field_nullstr(r3, key_done_date()) {
            None => None,
            Some((done, r4)) => {
                let t = skip_ws(r4);
                if t.len() >= 1 && t[0] == '}' {
                    Some(
                        (
                            ItemView {
                                position: 0,
                                priority: pri,
                                description: desc,
                                context: ctx,
                                project: proj,
                                tags: tags,
                                start_date: start,
                                due_date: match due2 {
                                    Some(d) => d,
                                    None => None,
                                },
                                done_date: done,
                            },
                            t.skip(1),
                        ),
                    )
                } else {
                    None
                }
            },
        },
    }
}

/// One record: `{`, the fields in their fixed order, `}`.  A priority
/// string must hold exactly one character.
pub open spec fn parse_item(s: Seq<char>) -> Option<(ItemView, Seq<char>)> {
    let t0 = skip_ws(s);
    if !(t0.len() >= 1 && t0[0] == '{') {
        None
    } else {
        match parse_field_nullstr(t0.skip(1), key_priority()) {
            None => None,
            Some((pri_s, r1)) => {
                if pri_s is Some && pri_s->0.len() != 1 {
                    None
                } else {
                    let pri = match pri_s {
                        Some(w) => Some(w[0]),
                        None => None,
                    };
                    match parse_comma(r1) {
                        None => None,
                        Some(r1c) => match parse_field_str(r1c, key_description()) {
                            None => None,
                            Some((desc, r2)) => match parse_comma(r2) {
                                None => None,
                                Some(r2c) => match parse_field_nullstr(r2c, key_context()) {
                                    None => None,
                                    Some((ctx, r3)) => match parse_comma(r3) {
                                        None => None,
                                        Some(r3c) => match parse_field_nullstr(
                                            r3c,
                                            key_project(),
                                        ) {
                                            None => None,
                                            Some((proj, r4)) => match parse_comma(r4) {
                                                None => None,
                                                Some(r4c) => match parse_field_tags(
                                                    r4c,
                                                    key_tags(),
                                                ) {
                                                    None => None,
                                                    Some((tags, r5)) => match parse_comma(r5) {
                                                        None => None,
                                                        Some(r5c) => match parse_field_str(
                                                            r5c,
                                                            key_start_date(),
                                                        ) {
                                                            None => None,
                                                            Some((start, r6)) => match parse_comma(
                                                                r6,
                                                            ) {
                                                                None => None,
                                                                Some(r6c) => parse_item_tail(
                                                                    r6c,
                                                                    pri,
                                                                    desc,
                                                                    ctx,
                                                                    proj,
                                                                    tags,
                                                                    start,
                                                                ),
                                                            },
                                                        },
                                                    },
                                                },
                                            },
                                        },
                                    },
                                },
                            },
                        },
                    }
                }
            },
        }
    }
}

/// One or more comma-separated records.
pub open spec fn parse_items(s: Seq<char>) -> Option<(Seq<ItemView>, Seq<char>)>
    decreases s.len(),
{
    match parse_item(s) {
        None => None,
        Some((v, r)) => {
            let t = skip_ws(r);
            if t.len() >= 1 && t[0] == ',' {
                let nxt = t.skip(1);
                if nxt.len() < s.len() {
                    match parse_items(nxt) {
                        Some((vs, r2)) => Some((seq![v] + vs, r2)),
                        None => None,
                    }
                } else {
                    None
                }
            } else {
                Some((seq![v], r))
            }
        },
    }
}

/// A whole store file: one array of records and nothing else.
pub open spec fn parse_collection_spec(s: Seq<char>) -> Option<Seq<ItemView>> {
    let t = skip_ws(s);
    if !(t.len() >= 1 && t[0] == '[') {
        None
    } else {
        let u = skip_ws(t.skip(1));
        if u.len() >= 1 && u[0] == ']' {
            if skip_ws(u.skip(1)).len() == 0 {
                Some(Seq::empty())
            } else {
                None
            }
        } else {
            match parse_items(t.skip(1)) {
                None => None,
                Some((vs, r)) => {
                    let w = skip_ws(r);
                    if w.len() >= 1 && w[0] == ']' && skip_ws(w.skip(1)).len() == 0 {
                        Some(vs)
                    } else {
                        None
                    }
                },
            }
        }
    }
}


/// Prepending nothing to a parse result changes nothing.
proof fn lemma_sb_empty(orig: Seq<char>)
    ensures
        parse_str_body(orig) == (match parse_str_body(orig) {
            Some((w, r)) => Some((Seq::<char>::empty() + w, r)),
            None => None,
        }),
{
    match parse_str_body(orig) {
        Some((w, r)) => {
            assert(Seq::<char>::empty() + w =~= w);
        },
        None => {},
    }
}

/// Shifts one decoded character from the continuation into the
/// accumulator.
proof fn lemma_sb_step(orig: Seq<char>, acc: Seq<char>, c: char, s1: Seq<char>, s2: Seq<char>)
    requires
        parse_str_body(s1) == (match parse_str_body(s2) {
            Some((w, r)) => Some((seq![c] + w, r)),
            None => None,
        }),
        parse_str_body(orig) == (match parse_str_body(s1) {
            Some((w, r)) => Some((acc + w, r)),
            None => None,
        }),
    ensures
        parse_str_body(orig) == (match parse_str_body(s2) {
            Some((w, r)) => Some((acc.push(c) + w, r)),
            None => None,
        }),
{
    match parse_str_body(s2) {
        Some((w, r)) => {
            assert(acc + (seq![c] + w) =~= acc.push(c) + w);
        },
        None => {},
    }
}

/// Skips blank space; afterwards the suffix at the returned index is
/// the blank-stripped suffix.
fn x_ws(s: &Vec<char>, i: usize) -> (j: usize)
    requires
        i <= s@.len(),
    ensures
        i <= j <= s@.len(),
        skip_ws(s@.skip(i as int)) == s@.skip(j as int),
{
    let mut j = i;
    while j < s.len() && (s[j] == ' ' || s[j] == '\t' || s[j] == '\n' || s[j] == '\r')
        invariant
            i <= j <= s@.len(),
            s@.len() == s.len(),
            skip_ws(s@.skip(i as int)) == skip_ws(s@.skip(j as int)),
        decreases s.len() - j,
    {
        proof {
            assert(s@.skip(j as int)[0] == s@[j as int]);
            assert(s@.skip(j as int).drop_first() =~= s@.skip(j + 1 as int));
        }
        j += 1;
    }
    proof {
        if j < s.len() {
            assert(s@.skip(j as int)[0] == s@[j as int]);
        }
        assert(skip_ws(s@.skip(j as int)) == s@.skip(j as int));
    }
    j
}

/// Matches a fixed literal at the given index.
fn x_lit(s: &Vec<char>, i: usize, lit: &str) -> (r: Option<usize>)
    requires
        i <= s@.len(),
    ensures
        match r {
            Some(j) => i <= j <= s@.len() && s@.skip(i as int).len() >= lit@.len() && s@.skip(
                i as int,
            ).subrange(0, lit@.len() as int) == lit@ && s@.skip(j as int) == s@.skip(
                i as int,
            ).skip(lit@.len() as int),
            None => !(s@.skip(i as int).len() >= lit@.len() && s@.skip(i as int).subrange(
                0,
                lit@.len() as int,
            ) == lit@),
        },
{
    let lv = chars_of(lit);
    if s.len() - i < lv.len() {
        return None;
    }
    let mut k: usize = 0;
    while k < lv.len()
        invariant
            0 <= k <= lv.len(),
            lv@ == lit@,
            i <= s@.len(),
            s@.len() == s.len(),
            lv.len() <= s.len() - i,
            forall|a: int| 0 <= a < k ==> s@.skip(i as int)[a] == lv@[a],
        decreases lv.len() - k,
    {
        if s[i + k] != lv[k] {
            proof {
                assert(s@.skip(i as int)[k as int] == s@[i + k]);
                assert(s@.skip(i as int).subrange(0, lit@.len() as int)[k as int] != lit@[k as int]);
            }
            return None;
        }
        proof {
            assert(s@.skip(i as int)[k as int] == s@[i + k]);
        }
        k += 1;
    }
    proof {
        assert(s@.skip(i as int).subrange(0, lit@.len() as int) =~= lit@);
        assert(s@.skip(i + lit@.len()) =~= s@.skip(i as int).skip(lit@.len() as int));
    }
    Some(i + lv.len())
}

/// The body of a string literal, from after the opening quote.
fn x_str_body(s: &Vec<char>, i: usize) -> (r: Option<(String, usize)>)
    requires
        i <= s@.len(),
    ensures
        match r {
            Some((w, j)) => i <= j <= s@.len() && parse_str_body(s@.skip(i as int)) == Some(
                (w@, s@.skip(j as int)),
            ),
            None => parse_str_body(s@.skip(i as int)) is None,
        },
{
    let mut acc: Vec<char> = Vec::new();
    let mut cur = i;
    proof {
        lemma_sb_empty(s@.skip(i as int));
        assert(acc@ =~= Seq::<char>::empty());
    }
    while cur < s.len()
        invariant
            i <= cur <= s@.len(),
            s@.len() == s.len(),
            parse_str_body(s@.skip(i as int)) == (match parse_str_body(s@.skip(cur as int)) {
                Some((w, r2)) => Some((acc@ + w, r2)),
                None => None,
            }),
        decreases s.len() - cur,
    {
        let c = s[cur];
        proof {
            assert(s@.skip(cur as int)[0] == s@[cur as int]);
        }
        if c == '"' {
            proof {
                assert(s@.skip(cur as int).skip(1) =~= s@.skip(cur + 1 as int));
                assert(parse_str_body(s@.skip(cur as int)) == Some(
                    (Seq::<char>::empty(), s@.skip(cur + 1 as int)),
                ));
                assert(acc@ + Seq::<char>::empty() =~= acc@);
            }
            let w = string_from_chars(&acc);
            return Some((w, cur + 1));
        } else if c == '\\' {
            if cur + 1 >= s.len() {
                return None;
            }
            let e = s[cur + 1];
            proof {
                assert(s@.skip(cur as int)[1] == s@[cur + 1 as int]);
            }
            if e == '"' || e == '\\' || e == 'n' || e == 'r' || e == 't' {
                let u = if e == '"' {
                    '"'
                } else if e == '\\' {
                    '\\'
                } else if e == 'n' {
                    '\n'
                } else if e == 'r' {
                    '\r'
                } else {
                    '\t'
                };
                proof {
                    assert(u == unesc(e));
                    assert(s@.skip(cur as int).skip(2) =~= s@.skip(cur + 2 as int));
                    lemma_sb_step(
                        s@.skip(i as int),
                        acc@,
                        u,
                        s@.skip(cur as int),
                        s@.skip(cur + 2 as int),
                    );
                }
                acc.push(u);
                cur = cur + 2;
            } else if e == 'u' {
                if s.len() - cur < 6 {
                    proof {
                        assert(s@.skip(cur as int).len() < 6);
                    }
                    return None;
                }
                let c2 = s[cur + 2];
                let c3 = s[cur + 3];
                let c4 = s[cur + 4];
                let c5 = s[cur + 5];
                proof {
                    assert(s@.skip(cur as int)[2] == s@[cur + 2 as int]);
                    assert(s@.skip(cur as int)[3] == s@[cur + 3 as int]);
                    assert(s@.skip(cur as int)[4] == s@[cur + 4 as int]);
                    assert(s@.skip(cur as int)[5] == s@[cur + 5 as int]);
                }
                let h4 = c4 as u32;
                let h5 = c5 as u32;
                let ok4 = (0x30 <= h4 && h4 <= 0x39) || (0x61 <= h4 && h4 <= 0x66);
                let ok5 = (0x30 <= h5 && h5 <= 0x39) || (0x61 <= h5 && h5 <= 0x66);
                if !(c2 == '0' && c3 == '0' && ok4 && ok5) {
                    return None;
                }
                let v4 = if h4 <= 0x39 {
                    h4 - 0x30
                } else {
                    h4 - 0x57
                };
                let v5 = if h5 <= 0x39 {
                    h5 - 0x30
                } else {
                    h5 - 0x57
                };
                let v = v4 * 16 + v5;
                if v >= 0x20 {
                    return None;
                }
                let u = (v as u8) as char;
                proof {
                    assert(v4 == hex_val(c4) && v5 == hex_val(c5));
                    assert(u == ((hex_val(c4) * 16 + hex_val(c5)) as u8) as char);
                    assert(s@.skip(cur as int).skip(6) =~= s@.skip(cur + 6 as int));
                    lemma_sb_step(
                        s@.skip(i as int),
                        acc@,
                        u,
                        s@.skip(cur as int),
                        s@.skip(cur + 6 as int),
                    );
                }
                acc.push(u);
                cur = cur + 6;
            } else {
                return None;
            }
        } else if (c as u32) < 0x20 {
            return None;
        } else {
            proof {
                assert(s@.skip(cur as int).skip(1) =~= s@.skip(cur + 1 as int));
                lemma_sb_step(
                    s@.skip(i as int),
                    acc@,
                    c,
                    s@.skip(cur as int),
                    s@.skip(cur + 1 as int),
                );
            }
            acc.push(c);
            cur = cur + 1;
        }
    }
    proof {
        assert(s@.skip(cur as int).len() == 0);
        assert(parse_str_body(s@.skip(cur as int)) is None);
    }
    None
}

/// A quoted string literal.
fn x_jstr(s: &Vec<char>, i: usize) -> (r: Option<(String, usize)>)
    requires
        i <= s@.len(),
    ensures
        match r {
            Some((w, j)) => i <= j <= s@.len() && parse_jstr(s@.skip(i as int)) == Some(
                (w@, s@.skip(j as int)),
            ),
            None => parse_jstr(s@.skip(i as int)) is None,
        },
{
    if i < s.len() && s[i] == '"' {
        proof {
            assert(s@.skip(i as int)[0] == s@[i as int]);
            assert(s@.skip(i as int).skip(1) =~= s@.skip(i + 1 as int));
        }
        x_str_body(s, i + 1)
    } else {
        proof {
            if i < s.len() {
                assert(s@.skip(i as int)[0] == s@[i as int]);
            }
        }
        None
    }
}

/// `null` or a quoted string literal.
fn x_nullstr(s: &Vec<char>, i: usize) -> (r: Option<(Option<String>, usize)>)
    requires
        i <= s@.len(),
    ensures
        match r {
            Some((o, j)) => i <= j <= s@.len() && parse_nullstr(s@.skip(i as int)) == Some(
                (o.deep_view(), s@.skip(j as int)),
            ),
            None => parse_nullstr(s@.skip(i as int)) is None,
        },
{
    proof {
        reveal_strlit("null");
        assert("null"@ =~= seq!['n', 'u', 'l', 'l']);
    }
    match x_lit(s, i, "null") {
        Some(j) => {
            proof {
                assert(s@.skip(i as int).skip(4) =~= s@.skip(j as int));
            }
            Some((None, j))
        },
        None => {
            match x_jstr(s, i) {
                Some((w, j)) => Some((Some(w), j)),
                None => None,
            }
        },
    }
}

/// Shifts one parsed tag from the continuation into the accumulator.
proof fn lemma_ti_step(
    orig: Seq<char>,
    acc: Seq<Seq<char>>,
    w: Seq<char>,
    s1: Seq<char>,
    s2: Seq<char>,
)
    requires
        parse_tag_items(s1) == (match parse_tag_items(s2) {
            Some((ws2, r)) => Some((seq![w] + ws2, r)),
            None => None,
        }),
        parse_tag_items(orig) == (match parse_tag_items(s1) {
            Some((ws2, r)) => Some((acc + ws2, r)),
            None => None,
        }),
    ensures
        parse_tag_items(orig) == (match parse_tag_items(s2) {
            Some((ws2, r)) => Some((acc.push(w) + ws2, r)),
            None => None,
        }),
{
    match parse_tag_items(s2) {
        Some((ws2, r)) => {
            assert(acc + (seq![w] + ws2) =~= acc.push(w) + ws2);
        },
        None => {},
    }
}

/// A string array.
#[verifier::rlimit(50)]
fn x_tags(s: &Vec<char>, i: usize) -> (r: Option<(Vec<String>, usize)>)
    requires
        i <= s@.len(),
    ensures
        match r {
            Some((ts, j)) => i <= j <= s@.len() && parse_tags(s@.skip(i as int)) == Some(
                (ts.deep_view(), s@.skip(j as int)),
            ),
            None => parse_tags(s@.skip(i as int)) is None,
        },
{
    if !(i < s.len() && s[i] == '[') {
        proof {
            if i < s.len() {
                assert(s@.skip(i as int)[0] == s@[i as int]);
            }
        }
        return None;
    }
    proof {
        assert(s@.skip(i as int)[0] == s@[i as int]);
        assert(s@.skip(i as int).skip(1) =~= s@.skip(i + 1 as int));
    }
    let j0 = x_ws(s, i + 1);
    if j0 < s.len() && s[j0] == ']' {
        proof {
            assert(s@.skip(j0 as int)[0] == s@[j0 as int]);
            assert(s@.skip(j0 as int).skip(1) =~= s@.skip(j0 + 1 as int));
        }
        let ts: Vec<String> = Vec::new();
        proof {
            assert(ts.deep_view() =~~= Seq::<Seq<char>>::empty());
        }
        return Some((ts, j0 + 1));
    }
    proof {
        if j0 < s.len() {
            assert(s@.skip(j0 as int)[0] == s@[j0 as int]);
        }
    }
    // one or more items from j0
    let ghost start_sfx = s@.skip(j0 as int);
    let mut acc: Vec<String> = Vec::new();
    let mut cur = j0;
    proof {
        assert(acc.deep_view() =~~= Seq::<Seq<char>>::empty());
        match parse_tag_items(start_sfx) {
            Some((ws2, r2)) => {
                assert(Seq::<Seq<char>>::empty() + ws2 =~= ws2);
            },
            None => {},
        }
    }
    loop
        invariant
            i <= j0 <= cur <= s@.len(),
            s@.len() == s.len(),
            start_sfx == s@.skip(j0 as int),
            parse_tags(s@.skip(i as int)) == parse_tag_items(start_sfx),
            parse_tag_items(start_sfx) == (match parse_tag_items(s@.skip(cur as int)) {
                Some((ws2, r2)) => Some((acc.deep_view() + ws2, r2)),
                None => None,
            }),
        decreases s.len() - cur,
    {
        let w_opt = x_jstr(s, cur);
        match w_opt {
            None => {
                return None;
            },
            Some((w, j1)) => {
                let j2 = x_ws(s, j1);
                if j2 < s.len() && s[j2] == ',' {
                    proof {
                        assert(s@.skip(j2 as int)[0] == s@[j2 as int]);
                        assert(s@.skip(j2 as int).skip(1) =~= s@.skip(j2 + 1 as int));
                    }
                    let j3 = x_ws(s, j2 + 1);
                    // the string literal consumed at least two characters
                    proof {
                        assert(parse_jstr(s@.skip(cur as int)) is Some);
                        assert(s@[cur as int] == '"');
                        assert(j1 > cur);
                        assert(j3 > cur);
                        assert(s@.skip(j3 as int).len() < s@.skip(cur as int).len());
                        let ghost_w = w@;
                        lemma_ti_step(
                            start_sfx,
                            acc.deep_view(),
                            ghost_w,
                            s@.skip(cur as int),
                            s@.skip(j3 as int),
                        );
                    }
                    let ghost pre = acc.deep_view();
                    acc.push(w);
                    proof {
                        assert(acc.deep_view() =~~= pre.push(w@));
                    }
                    cur = j3;
                } else if j2 < s.len() && s[j2] == ']' {
                    proof {
                        assert(s@.skip(j2 as int)[0] == s@[j2 as int]);
                        assert(s@.skip(j2 as int).skip(1) =~= s@.skip(j2 + 1 as int));
                        assert(parse_tag_items(s@.skip(cur as int)) == Some(
                            (seq![w@], s@.skip(j2 + 1 as int)),
                        ));
                    }
                    let ghost pre = acc.deep_view();
                    acc.push(w);
                    proof {
                        assert(acc.deep_view() =~~= pre.push(w@));
                        assert(pre + seq![w@] =~= pre.push(w@));
                    }
                    return Some((acc, j2 + 1));
                } else {
                    proof {
                        if j2 < s.len() {
                            assert(s@.skip(j2 as int)[0] == s@[j2 as int]);
                        }
                    }
                    return None;
                }
            },
        }
    }
}

/// A fixed key after optional blank space.
fn x_key(s: &Vec<char>, i: usize, lit: &str) -> (r: Option<usize>)
    requires
        i <= s@.len(),
    ensures
        match r {
            Some(j) => i <= j <= s@.len() && parse_key(s@.skip(i as int), lit@) == Some(
                s@.skip(j as int),
            ),
            None => parse_key(s@.skip(i as int), lit@) is None,
        },
{
    let j0 = x_ws(s, i);
    match x_lit(s, j0, lit) {
        Some(j) => Some(j),
        None => None,
    }
}

/// A comma after optional blank space.
fn x_comma(s: &Vec<char>, i: usize) -> (r: Option<usize>)
    requires
        i <= s@.len(),
    ensures
        match r {
            Some(j) => i <= j <= s@.len() && parse_comma(s@.skip(i as int)) == Some(
                s@.skip(j as int),
            ),
            None => parse_comma(s@.skip(i as int)) is None,
        },
{
    let j0 = x_ws(s, i);
    if j0 < s.len() && s[j0] == ',' {
        proof {
            assert(s@.skip(j0 as int)[0] == s@[j0 as int]);
            assert(s@.skip(j0 as int).skip(1) =~= s@.skip(j0 + 1 as int));
        }
        Some(j0 + 1)
    } else {
        proof {
            if j0 < s.len() {
                assert(s@.skip(j0 as int)[0] == s@[j0 as int]);
            }
        }
        None
    }
}


/// A key and a nullable string value.
fn x_field_nullstr(s: &Vec<char>, i: usize, lit: &str) -> (r: Option<(Option<String>, usize)>)
    requires
        i <= s@.len(),
    ensures
        match r {
            Some((o, j)) => i <= j <= s@.len() && parse_field_nullstr(s@.skip(i as int), lit@)
                == Some((o.deep_view(), s@.skip(j as int))),
            None => parse_field_nullstr(s@.skip(i as int), lit@) is None,
        },
{
    match x_key(s, i, lit) {
        None => None,
        Some(j1) => {
            let j2 = x_ws(s, j1);
            x_nullstr(s, j2)
        },
    }
}

/// A key and a string value.
fn x_field_str(s: &Vec<char>, i: usize, lit: &str) -> (r: Option<(String, usize)>)
    requires
        i <= s@.len(),
    ensures
        match r {
            Some((w, j)) => i <= j <= s@.len() && parse_field_str(s@.skip(i as int), lit@) == Some(
                (w@, s@.skip(j as int)),
            ),
            None => parse_field_str(s@.skip(i as int), lit@) is None,
        },
{
    match x_key(s, i, lit) {
        None => None,
        Some(j1) => {
            let j2 = x_ws(s, j1);
            x_jstr(s, j2)
        },
    }
}

/// A key and a string-array value.
fn x_field_tags(s: &Vec<char>, i: usize, lit: &str) -> (r: Option<(Vec<String>, usize)>)
    requires
        i <= s@.len(),
    ensures
        match r {
            Some((ts, j)) => i <= j <= s@.len() && parse_field_tags(s@.skip(i as int), lit@)
                == Some((ts.deep_view(), s@.skip(j as int))),
            None => parse_field_tags(s@.skip(i as int), lit@) is None,
        },
{
    match x_key(s, i, lit) {
        None => None,
        Some(j1) => {
            let j2 = x_ws(s, j1);
            x_tags(s, j2)
        },
    }
}

/// One record, starting at the given index.
#[verifier::rlimit(100)]
#[verifier::spinoff_prover]
fn x_item(s: &Vec<char>, i: usize) -> (r: Option<(TodoItem, usize)>)
    requires
        i <= s@.len(),
    ensures
        match r {
            Some((t, j)) => i < j <= s@.len() && parse_item(s@.skip(i as int)) == Some(
                (t@, s@.skip(j as int)),
            ),
            None => parse_item(s@.skip(i as int)) is None,
        },
{
    proof {
        reveal_strlit("\"priority\":");
        assert("\"priority\":"@ =~= key_priority());
        reveal_strlit("\"description\":");
        assert("\"description\":"@ =~= key_description());
        reveal_strlit("\"context\":");
        assert("\"context\":"@ =~= key_context());
        reveal_strlit("\"project\":");
        assert("\"project\":"@ =~= key_project());
        reveal_strlit("\"tags\":");
        assert("\"tags\":"@ =~= key_tags());
        reveal_strlit("\"start_date\":");
        assert("\"start_date\":"@ =~= key_start_date());
        reveal_strlit("\"due_date\":");
        assert("\"due_date\":"@ =~= key_due_date());
        reveal_strlit("\"done_date\":");
        assert("\"done_date\":"@ =~= key_done_date());
    }
    let j0 = x_ws(s, i);
    if !(j0 < s.len() && s[j0] == '{') {
        proof {
            if j0 < s.len() {
                assert(s@.skip(j0 as int)[0] == s@[j0 as int]);
            }
        }
        return None;
    }
    proof {
        assert(s@.skip(j0 as int)[0] == s@[j0 as int]);
        assert(s@.skip(j0 as int).skip(1) =~= s@.skip(j0 + 1 as int));
    }
    let pri_field = x_field_nullstr(s, j0 + 1, "\"priority\":");
    let (pri_s, r1) = match pri_field {
        None => {
            return None;
        },
        Some(p) => p,
    };
    let pri: Option<char> = match &pri_s {
        Some(w) => {
            let wv = chars_of(w.as_str());
            if wv.len() != 1 {
                return None;
            }
            Some(wv[0])
        },
        None => None,
    };
    let r1c = match x_comma(s, r1) {
        None => {
            return None;
        },
        Some(j) => j,
    };
    let (desc, r2) = match x_field_str(s, r1c, "\"description\":") {
        None => {
            return None;
        },
        Some(p) => p,
    };
    let r2c = match x_comma(s, r2) {
        None => {
            return None;
        },
        Some(j) => j,
    };
    let (ctx, r3) = match x_field_nullstr(s, r2c, "\"context\":") {
        None => {
            return None;
        },
        Some(p) => p,
    };
    let r3c = match x_comma(s, r3) {
        None => {
            return None;
        },
        Some(j) => j,
    };
    let (proj, r4) = match x_field_nullstr(s, r3c, "\"project\":") {
        None => {
            return None;
        },
        Some(p) => p,
    };
    let r4c = match x_comma(s, r4) {
        None => {
            return None;
        },
        Some(j) => j,
    };
    let (tags, r5) = match x_field_tags(s, r4c, "\"tags\":") {
        None => {
            return None;
        },
        Some(p) => p,
    };
    let r5c = match x_comma(s, r5) {
        None => {
            return None;
        },
        Some(j) => j,
    };
    let (start, r6) = match x_field_str(s, r5c, "\"start_date\":") {
        None => {
            return None;
        },
        Some(p) => p,
    };
    let r6c = match x_comma(s, r6) {
        None => {
            return None;
        },
        Some(j) => j,
    };
    let due_field = x_field_nullstr(s, r6c, "\"due_date\":");
    let (due2, r7): (Option<Option<String>>, usize) = match due_field {
        Some((due, rd)) => {
            match x_comma(s, rd) {
                None => {
                    return None;
                },
                Some(j) => (Some(due), j),
            }
        },
        None => (None, r6c),
    };
    let (done, r8) = match x_field_nullstr(s, r7, "\"done_date\":") {
        None => {
            return None;
        },
        Some(p) => p,
    };
    let t9 = x_ws(s, r8);
    if !(t9 < s.len() && s[t9] == '}') {
        proof {
            if t9 < s.len() {
                assert(s@.skip(t9 as int)[0] == s@[t9 as int]);
            }
        }
        return None;
    }
    proof {
        assert(s@.skip(t9 as int)[0] == s@[t9 as int]);
        assert(s@.skip(t9 as int).skip(1) =~= s@.skip(t9 + 1 as int));
    }
    let item = TodoItem {
        line_number: 0,
        priority: pri,
        description: desc,
        context: ctx,
        project: proj,
        tags: tags,
        start_date: start,
        due_date: match due2 {
            Some(d) => d,
            None => None,
        },
        done_date: done,
    };
    Some((item, t9 + 1))
}

/// Shifts one parsed record from the continuation into the
/// accumulator.
proof fn lemma_items_step(
    orig: Seq<char>,
    acc: Seq<ItemView>,
    v: ItemView,
    s1: Seq<char>,
    s2: Seq<char>,
)
    requires
        parse_items(s1) == (match parse_items(s2) {
            Some((vs, r)) => Some((seq![v] + vs, r)),
            None => None,
        }),
        parse_items(orig) == (match parse_items(s1) {
            Some((vs, r)) => Some((acc + vs, r)),
            None => None,
        }),
    ensures
        parse_items(orig) == (match parse_items(s2) {
            Some((vs, r)) => Some((acc.push(v) + vs, r)),
            None => None,
        }),
{
    match parse_items(s2) {
        Some((vs, r)) => {
            assert(acc + (seq![v] + vs) =~= acc.push(v) + vs);
        },
        None => {},
    }
}

/// Parses a whole store file.  `None` means the content is malformed.
#[verifier::rlimit(100)]
#[verifier::spinoff_prover]
pub fn parse_collection(content: &str) -> (r: Option<Vec<TodoItem>>)
    ensures
        match r {
            Some(v) => parse_collection_spec(content@) == Some(views_of(v@)),
            None => parse_collection_spec(content@) is None,
        },
{
    let s = chars_of(content);
    proof {
        assert(s@.skip(0) =~= s@);
    }
    let jb = x_ws(&s, 0);
    if !(jb < s.len() && s[jb] == '[') {
        proof {
            if jb < s.len() {
                assert(s@.skip(jb as int)[0] == s@[jb as int]);
            }
        }
        return None;
    }
    proof {
        assert(s@.skip(jb as int)[0] == s@[jb as int]);
        assert(s@.skip(jb as int).skip(1) =~= s@.skip(jb + 1 as int));
    }
    let ju = x_ws(&s, jb + 1);
    if ju < s.len() && s[ju] == ']' {
        proof {
            assert(s@.skip(ju as int)[0] == s@[ju as int]);
            assert(s@.skip(ju as int).skip(1) =~= s@.skip(ju + 1 as int));
        }
        let je = x_ws(&s, ju + 1);
        if je == s.len() {
            let v: Vec<TodoItem> = Vec::new();
            proof {
                assert(s@.skip(je as int).len() == 0);
                assert(views_of(v@) =~~= Seq::<ItemView>::empty());
            }
            return Some(v);
        } else {
            proof {
                assert(s@.skip(je as int).len() > 0);
            }
            return None;
        }
    }
    proof {
        if ju < s.len() {
            assert(s@.skip(ju as int)[0] == s@[ju as int]);
        }
    }
    let ghost start_sfx = s@.skip(jb + 1 as int);
    proof {
        assert(s@.skip(jb as int).skip(1) =~= s@.skip(jb + 1 as int));
    }
    let mut acc: Vec<TodoItem> = Vec::new();
    let mut cur: usize = jb + 1;
    proof {
        assert(views_of(acc@) =~~= Seq::<ItemView>::empty());
        match parse_items(start_sfx) {
            Some((vs, r2)) => {
                assert(Seq::<ItemView>::empty() + vs =~= vs);
            },
            None => {},
        }
    }
    loop
        invariant
            jb + 1 <= cur <= s@.len(),
            jb + 1 <= ju <= s@.len(),
            s@.len() == s.len(),
            s@ == content@,
            start_sfx == s@.skip(jb + 1 as int),
            skip_ws(s@) == s@.skip(jb as int),
            jb < s@.len() && s@[jb as int] == '[',
            s@.skip(jb as int).skip(1) == s@.skip(jb + 1 as int),
            skip_ws(s@.skip(jb + 1 as int)) == s@.skip(ju as int),
            !(ju < s@.len() && s@[ju as int] == ']'),
            parse_items(start_sfx) == (match parse_items(s@.skip(cur as int)) {
                Some((vs, r2)) => Some((views_of(acc@) + vs, r2)),
                None => None,
            }),
        decreases s.len() - cur,
    {
        proof {
            if ju < s@.len() {
                assert(s@.skip(ju as int)[0] == s@[ju as int]);
            }
        }
        let item_opt = x_item(&s, cur);
        match item_opt {
            None => {
                return None;
            },
            Some((t, j1)) => {
                let comma = x_comma(&s, j1);
                match comma {
                    Some(j2) => {
                        proof {
                            assert(parse_item(s@.skip(cur as int)) is Some);
                            assert(j2 > cur);
                            assert(s@.skip(j2 as int).len() < s@.skip(cur as int).len());
                            lemma_items_step(
                                start_sfx,
                                views_of(acc@),
                                t@,
                                s@.skip(cur as int),
                                s@.skip(j2 as int),
                            );
                        }
                        let ghost pre = views_of(acc@);
                        acc.push(t);
                        proof {
                            assert(views_of(acc@) =~~= pre.push(t@));
                        }
                        cur = j2;
                    },
                    None => {
                        // last record: expect the closing bracket and the end
                        proof {
                            assert(parse_items(s@.skip(cur as int)) == Some(
                                (seq![t@], s@.skip(j1 as int)),
                            ));
                        }
                        let ghost pre = views_of(acc@);
                        acc.push(t);
                        proof {
                            assert(views_of(acc@) =~~= pre.push(t@));
                            assert(pre + seq![t@] =~= pre.push(t@));
                            assert(parse_items(start_sfx) == Some(
                                (views_of(acc@), s@.skip(j1 as int)),
                            ));
                        }
                        let jw = x_ws(&s, j1);
                        if !(jw < s.len() && s[jw] == ']') {
                            proof {
                                if jw < s.len() {
                                    assert(s@.skip(jw as int)[0] == s@[jw as int]);
                                }
                            }
                            return None;
                        }
                        proof {
                            assert(s@.skip(jw as int)[0] == s@[jw as int]);
                            assert(s@.skip(jw as int).skip(1) =~= s@.skip(jw + 1 as int));
                        }
                        let je = x_ws(&s, jw + 1);
                        if je == s.len() {
                            proof {
                                assert(s@.skip(je as int).len() == 0);
                            }
                            return Some(acc);
                        } else {
                            proof {
                                assert(s@.skip(je as int).len() > 0);
                            }
                            return None;
                        }
                    },
                }
            },
        }
    }
}

/// Parses a single record, alone in its text up to trailing blank
/// space.  `None` means the text is malformed.
pub fn parse_record(content: &str) -> (r: Option<TodoItem>)
    ensures
        match r {
            Some(t) => parse_item(content@) is Some && (parse_item(content@)->0).0 == t@,
            None => parse_item(content@) is None || skip_ws((parse_item(content@)->0).1).len()
                != 0,
        },
{
    let s = chars_of(content);
    proof {
        assert(s@.skip(0) =~= s@);
    }
    match x_item(&s, 0) {
        None => None,
        Some((t, j)) => {
            let je = x_ws(&s, j);
            if je == s.len() {
                proof {
                    assert(s@.skip(je as int).len() == 0);
                }
                Some(t)
            } else {
                proof {
                    assert(s@.skip(je as int).len() > 0);
                }
                None
            }
        },
    }
}

/// Loads a collection from the store text: a well-formed file gives
/// its records with positions assigned 1-based in order; malformed
/// content gives the empty collection.
pub fn load_collection(content: &str) -> (r: Vec<TodoItem>)
    ensures
        match parse_collection_spec(content@) {
            Some(vs) => r@.len() == vs.len() && forall|i: int|
                0 <= i < r@.len() ==> (#[trigger] r@[i])@ == vs[i].with_position(i + 1),
            None => r@.len() == 0,
        },
{
    match parse_collection(content) {
        Some(v) => {
            let ghost vs = views_of(v@);
            let r = crate::ops::assign_positions(v);
            proof {
                assert forall|i: int| 0 <= i < r@.len() implies (#[trigger] r@[i])@ == vs[
                    i
                ].with_position(i + 1) by {
                    assert(r@[i]@.same_fields(v@[i]@));
                    assert(views_of(v@)[i] == v@[i]@);
                }
            }
            r
        },
        None => {
            Vec::new()
        },
    }
}


// ---------------------------------------------------------------------
// The round trip: parsing inverts rendering.
// ---------------------------------------------------------------------

/// Blank-stripping leaves a text alone when it does not start blank.
proof fn lemma_skip_ws_id(s: Seq<char>)
    requires
        s.len() == 0 || !is_json_ws(s[0]),
    ensures
        skip_ws(s) == s,
{
}

/// A hexadecimal digit decodes to the value it encodes.
proof fn lemma_hex_round(n: int)
    requires
        0 <= n < 16,
    ensures
        is_hex_char(hex_char(n)),
        hex_val(hex_char(n)) == n,
{
    if n < 10 {
        assert((((n + 0x30) as u8) as char) as u32 == n + 0x30);
    } else {
        assert((((n + 0x57) as u8) as char) as u32 == n + 0x57);
    }
}

/// Escaping one character in front of a string.
proof fn lemma_escstr_front(w: Seq<char>)
    requires
        w.len() >= 1,
    ensures
        escstr(w) == esc_char(w[0]) + escstr(w.drop_first()),
{
    assert(w =~= seq![w[0]] + w.drop_first());
    lemma_escstr_concat(seq![w[0]], w.drop_first());
    let one = seq![w[0]];
    assert(one.drop_last() =~= Seq::<char>::empty());
    assert(escstr(one) == escstr(one.drop_last()) + esc_char(one.last()));
    assert(escstr(one) =~= esc_char(w[0]));
}

/// A string body parses back to the characters it was escaped from.
proof fn lemma_str_body_round(w: Seq<char>, rest: Seq<char>)
    ensures
        parse_str_body(escstr(w) + (seq!['"'] + rest)) == Some((w, rest)),
    decreases w.len(),
{
    if w.len() == 0 {
        let s = escstr(w) + (seq!['"'] + rest);
        assert(s =~= seq!['"'] + rest);
        assert(s[0] == '"');
        assert(s.skip(1) =~= rest);
    } else {
        let c = w[0];
        lemma_escstr_front(w);
        lemma_str_body_round(w.drop_first(), rest);
        let tail = escstr(w.drop_first()) + (seq!['"'] + rest);
        let s = escstr(w) + (seq!['"'] + rest);
        assert(s =~= esc_char(c) + tail);
        let u = c as u32;
        if c == '"' {
            assert(s[0] == '\\' && s[1] == '"');
            assert(s.skip(2) =~= tail);
            assert(unesc('"') == c);
            assert(seq![c] + w.drop_first() =~= w);
        } else if c == '\\' {
            assert(s[0] == '\\' && s[1] == '\\');
            assert(s.skip(2) =~= tail);
            assert(seq![c] + w.drop_first() =~= w);
        } else if c == '\n' {
            assert(s[0] == '\\' && s[1] == 'n');
            assert(s.skip(2) =~= tail);
            assert(unesc('n') == c);
            assert(seq![c] + w.drop_first() =~= w);
        } else if c == '\r' {
            assert(s[0] == '\\' && s[1] == 'r');
            assert(s.skip(2) =~= tail);
            assert(unesc('r') == c);
            assert(seq![c] + w.drop_first() =~= w);
        } else if c == '\t' {
            assert(s[0] == '\\' && s[1] == 't');
            assert(s.skip(2) =~= tail);
            assert(unesc('t') == c);
            assert(seq![c] + w.drop_first() =~= w);
        } else if u < 0x20 {
            let hi = (u as int) / 16;
            let lo = (u as int) % 16;
            assert(s[0] == '\\' && s[1] == 'u' && s[2] == '0' && s[3] == '0');
            assert(s[4] == hex_char(hi) && s[5] == hex_char(lo));
            assert(0 <= hi < 16 && 0 <= lo < 16) by {
                vstd::arithmetic::div_mod::lemma_fundamental_div_mod(u as int, 16);
            }
            lemma_hex_round(hi);
            lemma_hex_round(lo);
            assert(hex_val(s[4]) * 16 + hex_val(s[5]) == u) by {
                vstd::arithmetic::div_mod::lemma_fundamental_div_mod(u as int, 16);
            }
            assert(s.len() >= 6);
            assert(s.skip(6) =~= tail);
            assert(((u as u8) as char) == c) by {
                assert((u as u8) as u32 == u as u32);
                assert(((u as u8) as char) as u32 == c as u32);
                if ((u as u8) as char) != c {
                    crate::chars::lemma_char_cast_inj((u as u8) as char, c);
                }
            }
            assert(seq![c] + w.drop_first() =~= w);
        } else {
            assert(s[0] == c);
            assert(s[0] != '"' && s[0] != '\\' && !((s[0] as u32) < 0x20));
            assert(s.skip(1) =~= tail);
            assert(seq![c] + w.drop_first() =~= w);
        }
    }
}

/// A quoted literal parses back to its contents.
proof fn lemma_jstr_round(w: Seq<char>, rest: Seq<char>)
    ensures
        parse_jstr(jstr(w) + rest) == Some((w, rest)),
{
    let s = jstr(w) + rest;
    assert(s[0] == '"');
    assert(s.skip(1) =~= escstr(w) + (seq!['"'] + rest));
    lemma_str_body_round(w, rest);
}

/// A nullable string parses back to its value.
proof fn lemma_nullstr_round(o: Option<Seq<char>>, rest: Seq<char>)
    ensures
        parse_nullstr(jopt(o) + rest) == Some((o, rest)),
{
    let s = jopt(o) + rest;
    match o {
        None => {
            assert(s.len() >= 4);
            assert(s.subrange(0, 4) =~= seq!['n', 'u', 'l', 'l']);
            assert(s.skip(4) =~= rest);
        },
        Some(w) => {
            assert(s[0] == '"');
            assert(s.subrange(0, 4) != seq!['n', 'u', 'l', 'l'] || s.len() < 4) by {
                if s.len() >= 4 {
                    assert(s.subrange(0, 4)[0] == '"');
                }
            }
            assert(s =~= jstr(w) + rest);
            lemma_jstr_round(w, rest);
        },
    }
}

/// Splitting a nonempty tag list at its first element.
proof fn lemma_jtags_items_concat(a: Seq<Seq<char>>, b: Seq<Seq<char>>)
    requires
        a.len() >= 1,
        b.len() >= 1,
    ensures
        jtags_items(a + b) == jtags_items(a) + seq![','] + jtags_items(b),
    decreases b.len(),
{
    if b.len() == 1 {
        let ab = a + b;
        assert(ab.drop_last() =~= a);
        assert(ab.last() == b[0]);
        assert(ab.len() >= 2);
        assert(jtags_items(ab) == jtags_items(a) + seq![','] + jstr(b[0]));
        assert(jtags_items(b) == jstr(b[0]));
    } else {
        lemma_jtags_items_concat(a, b.drop_last());
        let ab = a + b;
        assert(ab.drop_last() =~= a + b.drop_last());
        assert(ab.last() == b.last());
        assert(jtags_items(ab) == jtags_items(a + b.drop_last()) + seq![','] + jstr(b.last()));
        assert(jtags_items(a) + seq![','] + jtags_items(b.drop_last()) + seq![','] + jstr(b.last())
            =~= jtags_items(a) + seq![','] + (jtags_items(b.drop_last()) + seq![','] + jstr(
            b.last(),
        )));
    }
}

proof fn lemma_jtags_items_front(ts: Seq<Seq<char>>)
    requires
        ts.len() >= 2,
    ensures
        jtags_items(ts) == jstr(ts[0]) + seq![','] + jtags_items(ts.drop_first()),
{
    assert(ts =~= seq![ts[0]] + ts.drop_first());
    lemma_jtags_items_concat(seq![ts[0]], ts.drop_first());
    assert(jtags_items(seq![ts[0]]) == jstr(ts[0]));
}

/// A rendered tag list followed by `]` parses back to its tags.
proof fn lemma_tag_items_round(ts: Seq<Seq<char>>, rest: Seq<char>)
    requires
        ts.len() >= 1,
    ensures
        parse_tag_items(jtags_items(ts) + (seq![']'] + rest)) == Some((ts, rest)),
    decreases ts.len(),
{
    let s = jtags_items(ts) + (seq![']'] + rest);
    if ts.len() == 1 {
        assert(s =~= jstr(ts[0]) + (seq![']'] + rest));
        lemma_jstr_round(ts[0], seq![']'] + rest);
        let t = seq![']'] + rest;
        lemma_skip_ws_id(t);
        assert(t[0] == ']');
        assert(t.skip(1) =~= rest);
        assert(seq![ts[0]] =~= ts);
    } else {
        lemma_jtags_items_front(ts);
        let tail = jtags_items(ts.drop_first()) + (seq![']'] + rest);
        assert(s =~= jstr(ts[0]) + (seq![','] + tail));
        lemma_jstr_round(ts[0], seq![','] + tail);
        let t = seq![','] + tail;
        lemma_skip_ws_id(t);
        assert(t[0] == ',');
        assert(t.skip(1) =~= tail);
        assert(ts.drop_first().len() >= 1);
        assert(jtags_items(ts.drop_first()).len() >= 1) by {
            if ts.drop_first().len() == 1 {
                assert(jtags_items(ts.drop_first()) == jstr(ts.drop_first()[0]));
            }
        }
        assert(tail[0] == jtags_items(ts.drop_first())[0]);
        assert(!is_json_ws(tail[0])) by {
            let df = ts.drop_first();
            if df.len() == 1 {
                assert(jtags_items(df) == jstr(df[0]));
                assert(jtags_items(df)[0] == '"');
            } else {
                lemma_jtags_items_front(df);
                assert(jtags_items(df)[0] == '"');
            }
        }
        lemma_skip_ws_id(tail);
        assert(tail.len() < s.len());
        lemma_tag_items_round(ts.drop_first(), rest);
        assert(seq![ts[0]] + ts.drop_first() =~= ts);
    }
}

/// A rendered tag array parses back to its tags.
proof fn lemma_tags_round(ts: Seq<Seq<char>>, rest: Seq<char>)
    ensures
        parse_tags(jtags(ts) + rest) == Some((ts, rest)),
{
    let s = jtags(ts) + rest;
    assert(s[0] == '[');
    if ts.len() == 0 {
        assert(s.skip(1) =~= seq![']'] + rest);
        lemma_skip_ws_id(seq![']'] + rest);
        assert((seq![']'] + rest)[0] == ']');
        assert((seq![']'] + rest).skip(1) =~= rest);
        assert(ts =~= Seq::<Seq<char>>::empty());
    } else {
        let body = jtags_items(ts) + (seq![']'] + rest);
        assert(s.skip(1) =~= body);
        assert(body[0] == '"') by {
            if ts.len() == 1 {
                assert(jtags_items(ts) == jstr(ts[0]));
            } else {
                lemma_jtags_items_front(ts);
            }
        }
        lemma_skip_ws_id(body);
        lemma_tag_items_round(ts, rest);
    }
}

/// A rendered key parses back, leaving the rest.
proof fn lemma_key_round(key: Seq<char>, rest: Seq<char>)
    requires
        key.len() >= 1,
        !is_json_ws(key[0]),
    ensures
        parse_key(key + rest, key) == Some(rest),
{
    let s = key + rest;
    assert(s[0] == key[0]);
    lemma_skip_ws_id(s);
    assert(s.subrange(0, key.len() as int) =~= key);
    assert(s.skip(key.len() as int) =~= rest);
}

/// A comma parses back, leaving the rest.
proof fn lemma_comma_round(rest: Seq<char>)
    ensures
        parse_comma(seq![','] + rest) == Some(rest),
{
    let s = seq![','] + rest;
    lemma_skip_ws_id(s);
    assert(s[0] == ',');
    assert(s.skip(1) =~= rest);
}


/// The first character of a nullable-string rendering is never blank.
proof fn lemma_jopt_head(o: Option<Seq<char>>)
    ensures
        jopt(o).len() >= 1,
        !is_json_ws(jopt(o)[0]),
{
    match o {
        None => {
            assert(jopt(o)[0] == 'n');
        },
        Some(w) => {
            assert(jopt(o)[0] == '"');
        },
    }
}

/// The rendered record with a suffix, re-bracketed from the front.
#[verifier::rlimit(100)]
#[verifier::spinoff_prover]
proof fn lemma_item_decomp(v: ItemView, rest: Seq<char>)
    ensures
        render_item_spec(v) + rest == seq!['{'] + (key_priority() + (jopt(pri_opt(v.priority)) + (seq![','] + (key_description() + (jstr(v.description) + (seq![','] + (key_context() + (jopt(v.context) + (seq![','] + (key_project() + (jopt(v.project) + (seq![','] + (key_tags() + (jtags(v.tags) + (seq![','] + (key_start_date() + (jstr(v.start_date) + (seq![','] + (key_due_date() + (jopt(v.due_date) + (seq![','] + (key_done_date() + (jopt(v.done_date) + (seq!['}'] + (rest))))))))))))))))))))))))),
{
    let t25 = rest;
    let t24 = seq!['}'] + t25;
    let t23 = jopt(v.done_date) + t24;
    let t22 = key_done_date() + t23;
    let t21 = seq![','] + t22;
    let t20 = jopt(v.due_date) + t21;
    let t19 = key_due_date() + t20;
    let t18 = seq![','] + t19;
    let t17 = jstr(v.start_date) + t18;
    let t16 = key_start_date() + t17;
    let t15 = seq![','] + t16;
    let t14 = jtags(v.tags) + t15;
    let t13 = key_tags() + t14;
    let t12 = seq![','] + t13;
    let t11 = jopt(v.project) + t12;
    let t10 = key_project() + t11;
    let t9 = seq![','] + t10;
    let t8 = jopt(v.context) + t9;
    let t7 = key_context() + t8;
    let t6 = seq![','] + t7;
    let t5 = jstr(v.description) + t6;
    let t4 = key_description() + t5;
    let t3 = seq![','] + t4;
    let t2 = jopt(pri_opt(v.priority)) + t3;
    let t1 = key_priority() + t2;
    let t0 = seq!['{'] + t1;
    let p1 = seq!['{'];
    let p2 = p1 + key_priority();
    let p3 = p2 + jopt(pri_opt(v.priority));
    let p4 = p3 + seq![','];
    let p5 = p4 + key_description();
    let p6 = p5 + jstr(v.description);
    let p7 = p6 + seq![','];
    let p8 = p7 + key_context();
    let p9 = p8 + jopt(v.context);
    let p10 = p9 + seq![','];
    let p11 = p10 + key_project();
    let p12 = p11 + jopt(v.project);
    let p13 = p12 + seq![','];
    let p14 = p13 + key_tags();
    let p15 = p14 + jtags(v.tags);
    let p16 = p15 + seq![','];
    let p17 = p16 + key_start_date();
    let p18 = p17 + jstr(v.start_date);
    let p19 = p18 + seq![','];
    let p20 = p19 + key_due_date();
    let p21 = p20 + jopt(v.due_date);
    let p22 = p21 + seq![','];
    let p23 = p22 + key_done_date();
    let p24 = p23 + jopt(v.done_date);
    let p25 = p24 + seq!['}'];
    assert(p1 + t1 == t0);
    vstd::seq_lib::lemma_concat_associative(p1, key_priority(), t2);
    assert(p2 + t2 == p1 + t1);
    vstd::seq_lib::lemma_concat_associative(p2, jopt(pri_opt(v.priority)), t3);
    assert(p3 + t3 == p2 + t2);
    vstd::seq_lib::lemma_concat_associative(p3, seq![','], t4);
    assert(p4 + t4 == p3 + t3);
    vstd::seq_lib::lemma_concat_associative(p4, key_description(), t5);
    assert(p5 + t5 == p4 + t4);
    vstd::seq_lib::lemma_concat_associative(p5, jstr(v.description), t6);
    assert(p6 + t6 == p5 + t5);
    vstd::seq_lib::lemma_concat_associative(p6, seq![','], t7);
    assert(p7 + t7 == p6 + t6);
    vstd::seq_lib::lemma_concat_associative(p7, key_context(), t8);
    assert(p8 + t8 == p7 + t7);
    vstd::seq_lib::lemma_concat_associative(p8, jopt(v.context), t9);
    assert(p9 + t9 == p8 + t8);
    vstd::seq_lib::lemma_concat_associative(p9, seq![','], t10);
    assert(p10 + t10 == p9 + t9);
    vstd::seq_lib::lemma_concat_associative(p10, key_project(), t11);
    assert(p11 + t11 == p10 + t10);
    vstd::seq_lib::lemma_concat_associative(p11, jopt(v.project), t12);
    assert(p12 + t12 == p11 + t11);
    vstd::seq_lib::lemma_concat_associative(p12, seq![','], t13);
    assert(p13 + t13 == p12 + t12);
    vstd::seq_lib::lemma_concat_associative(p13, key_tags(), t14);
    assert(p14 + t14 == p13 + t13);
    vstd::seq_lib::lemma_concat_associative(p14, jtags(v.tags), t15);
    assert(p15 + t15 == p14 + t14);
    vstd::seq_lib::lemma_concat_associative(p15, seq![','], t16);
    assert(p16 + t16 == p15 + t15);
    vstd::seq_lib::lemma_concat_associative(p16, key_start_date(), t17);
    assert(p17 + t17 == p16 + t16);
    vstd::seq_lib::lemma_concat_associative(p17, jstr(v.start_date), t18);
    assert(p18 + t18 == p17 + t17);
    vstd::seq_lib::lemma_concat_associative(p18, seq![','], t19);
    assert(p19 + t19 == p18 + t18);
    vstd::seq_lib::lemma_concat_associative(p19, key_due_date(), t20);
    assert(p20 + t20 == p19 + t19);
    vstd::seq_lib::lemma_concat_associative(p20, jopt(v.due_date), t21);
    assert(p21 + t21 == p20 + t20);
    vstd::seq_lib::lemma_concat_associative(p21, seq![','], t22);
    assert(p22 + t22 == p21 + t21);
    vstd::seq_lib::lemma_concat_associative(p22, key_done_date(), t23);
    assert(p23 + t23 == p22 + t22);
    vstd::seq_lib::lemma_concat_associative(p23, jopt(v.done_date), t24);
    assert(p24 + t24 == p23 + t23);
    vstd::seq_lib::lemma_concat_associative(p24, seq!['}'], t25);
    assert(p25 + t25 == p24 + t24);
    assert(p25 == render_item_spec(v)) by {
        lemma_render_item_chain(v);
    }
    assert(render_item_spec(v) + rest == t0);
}

/// A rendered record parses back to its fields, with the position
/// cleared for the loader.
#[verifier::rlimit(100)]
#[verifier::spinoff_prover]
proof fn lemma_item_round(v: ItemView, rest: Seq<char>)
    ensures
        parse_item(render_item_spec(v) + rest) == Some((v.with_position(0), rest)),
{
    let t25 = rest;
    let t24 = seq!['}'] + t25;
    let t23 = jopt(v.done_date) + t24;
    let t22 = key_done_date() + t23;
    let t21 = seq![','] + t22;
    let t20 = jopt(v.due_date) + t21;
    let t19 = key_due_date() + t20;
    let t18 = seq![','] + t19;
    let t17 = jstr(v.start_date) + t18;
    let t16 = key_start_date() + t17;
    let t15 = seq![','] + t16;
    let t14 = jtags(v.tags) + t15;
    let t13 = key_tags() + t14;
    let t12 = seq![','] + t13;
    let t11 = jopt(v.project) + t12;
    let t10 = key_project() + t11;
    let t9 = seq![','] + t10;
    let t8 = jopt(v.context) + t9;
    let t7 = key_context() + t8;
    let t6 = seq![','] + t7;
    let t5 = jstr(v.description) + t6;
    let t4 = key_description() + t5;
    let t3 = seq![','] + t4;
    let t2 = jopt(pri_opt(v.priority)) + t3;
    let t1 = key_priority() + t2;
    let t0 = seq!['{'] + t1;
    lemma_item_decomp(v, rest);
    let s = t0;
    assert(render_item_spec(v) + rest == s);
    assert(s[0] == '{');
    lemma_skip_ws_id(s);
    assert(s.skip(1) =~= t1);
    lemma_key_round(key_priority(), t2);
    lemma_jopt_head(pri_opt(v.priority));
    assert(t2[0] == jopt(pri_opt(v.priority))[0]);
    lemma_skip_ws_id(t2);
    lemma_nullstr_round(pri_opt(v.priority), t3);
    assert(parse_field_nullstr(t1, key_priority()) == Some((pri_opt(v.priority), t3)));
    lemma_comma_round(t4);
    assert(parse_comma(t3) == Some(t4));
    lemma_key_round(key_description(), t5);
    assert(t5[0] == jstr(v.description)[0]);
    assert(jstr(v.description)[0] == '"');
    lemma_skip_ws_id(t5);
    lemma_jstr_round(v.description, t6);
    assert(parse_field_str(t4, key_description()) == Some((v.description, t6)));
    lemma_comma_round(t7);
    assert(parse_comma(t6) == Some(t7));
    lemma_key_round(key_context(), t8);
    lemma_jopt_head(v.context);
    assert(t8[0] == jopt(v.context)[0]);
    lemma_skip_ws_id(t8);
    lemma_nullstr_round(v.context, t9);
    assert(parse_field_nullstr(t7, key_context()) == Some((v.context, t9)));
    lemma_comma_round(t10);
    assert(parse_comma(t9) == Some(t10));
    lemma_key_round(key_project(), t11);
    lemma_jopt_head(v.project);
    assert(t11[0] == jopt(v.project)[0]);
    lemma_skip_ws_id(t11);
    lemma_nullstr_round(v.project, t12);
    assert(parse_field_nullstr(t10, key_project()) == Some((v.project, t12)));
    lemma_comma_round(t13);
    assert(parse_comma(t12) == Some(t13));
    lemma_key_round(key_tags(), t14);
    assert(t14[0] == jtags(v.tags)[0]);
    assert(jtags(v.tags)[0] == '[');
    lemma_skip_ws_id(t14);
    lemma_tags_round(v.tags, t15);
    assert(parse_field_tags(t13, key_tags()) == Some((v.tags, t15)));
    lemma_comma_round(t16);
    assert(parse_comma(t15) == Some(t16));
    lemma_key_round(key_start_date(), t17);
    assert(t17[0] == jstr(v.start_date)[0]);
    assert(jstr(v.start_date)[0] == '"');
    lemma_skip_ws_id(t17);
    lemma_jstr_round(v.start_date, t18);
    assert(parse_field_str(t16, key_start_date()) == Some((v.start_date, t18)));
    lemma_comma_round(t19);
    assert(parse_comma(t18) == Some(t19));
    lemma_key_round(key_due_date(), t20);
    lemma_jopt_head(v.due_date);
    assert(t20[0] == jopt(v.due_date)[0]);
    lemma_skip_ws_id(t20);
    lemma_nullstr_round(v.due_date, t21);
    assert(parse_field_nullstr(t19, key_due_date()) == Some((v.due_date, t21)));
    lemma_comma_round(t22);
    assert(parse_comma(t21) == Some(t22));
    lemma_key_round(key_done_date(), t23);
    lemma_jopt_head(v.done_date);
    assert(t23[0] == jopt(v.done_date)[0]);
    lemma_skip_ws_id(t23);
    lemma_nullstr_round(v.done_date, t24);
    assert(parse_field_nullstr(t22, key_done_date()) == Some((v.done_date, t24)));
    assert(t24[0] == '}');
    lemma_skip_ws_id(t24);
    assert(t24.skip(1) =~= rest);
    assert(parse_item_tail(t19, v.priority, v.description, v.context, v.project, v.tags,
        v.start_date) == Some((v.with_position(0), rest)));
    match v.priority {
        Some(c) => {
            assert(pri_opt(v.priority)->0.len() == 1);
            assert(pri_opt(v.priority)->0[0] == c);
        },
        None => {},
    }
}

/// Every record's position cleared.
pub open spec fn zero_positions(vs: Seq<ItemView>) -> Seq<ItemView> {
    vs.map_values(|v: ItemView| v.with_position(0))
}

proof fn lemma_render_items_concat(a: Seq<ItemView>, b: Seq<ItemView>)
    requires
        a.len() >= 1,
        b.len() >= 1,
    ensures
        render_items_spec(a + b) == render_items_spec(a) + seq![','] + render_items_spec(b),
    decreases b.len(),
{
    if b.len() == 1 {
        let ab = a + b;
        assert(ab.drop_last() =~= a);
        assert(ab.last() == b[0]);
        assert(ab.len() >= 2);
        assert(render_items_spec(b) == render_item_spec(b[0]));
    } else {
        lemma_render_items_concat(a, b.drop_last());
        let ab = a + b;
        assert(ab.drop_last() =~= a + b.drop_last());
        assert(ab.last() == b.last());
        assert(render_items_spec(a) + seq![','] + render_items_spec(b.drop_last()) + seq![',']
            + render_item_spec(b.last()) =~= render_items_spec(a) + seq![','] + (render_items_spec(
            b.drop_last(),
        ) + seq![','] + render_item_spec(b.last())));
    }
}

proof fn lemma_render_items_front(vs: Seq<ItemView>)
    requires
        vs.len() >= 2,
    ensures
        render_items_spec(vs) == render_item_spec(vs[0]) + seq![','] + render_items_spec(
            vs.drop_first(),
        ),
{
    assert(vs =~= seq![vs[0]] + vs.drop_first());
    lemma_render_items_concat(seq![vs[0]], vs.drop_first());
    assert(render_items_spec(seq![vs[0]]) == render_item_spec(vs[0]));
}

/// A rendered record starts with its opening brace.
proof fn lemma_render_item_head(v: ItemView)
    ensures
        render_item_spec(v).len() >= 2,
        render_item_spec(v)[0] == '{',
{
    reveal(render_item_spec);
}

proof fn lemma_render_items_head(vs: Seq<ItemView>)
    requires
        vs.len() >= 1,
    ensures
        render_items_spec(vs).len() >= 2,
        render_items_spec(vs)[0] == '{',
{
    if vs.len() == 1 {
        lemma_render_item_head(vs[0]);
    } else {
        lemma_render_items_front(vs);
        lemma_render_item_head(vs[0]);
    }
}

/// A rendered record list followed by `]` parses back to its records.
#[verifier::rlimit(100)]
proof fn lemma_items_round(vs: Seq<ItemView>, rest: Seq<char>)
    requires
        vs.len() >= 1,
        rest.len() >= 1,
        rest[0] == ']',
    ensures
        parse_items(render_items_spec(vs) + rest) == Some((zero_positions(vs), rest)),
    decreases vs.len(),
{
    let s = render_items_spec(vs) + rest;
    if vs.len() == 1 {
        assert(s =~= render_item_spec(vs[0]) + rest);
        lemma_item_round(vs[0], rest);
        lemma_skip_ws_id(rest);
        assert(rest[0] != ',');
        assert(seq![vs[0].with_position(0)] =~= zero_positions(vs));
    } else {
        lemma_render_items_front(vs);
        let df = vs.drop_first();
        let tail = render_items_spec(df) + rest;
        assert(s =~= render_item_spec(vs[0]) + (seq![','] + tail));
        lemma_item_round(vs[0], seq![','] + tail);
        let t = seq![','] + tail;
        lemma_skip_ws_id(t);
        assert(t[0] == ',');
        assert(t.skip(1) =~= tail);
        lemma_render_items_head(df);
        assert(tail[0] == '{');
        lemma_skip_ws_id(tail);
        assert(tail.len() < s.len()) by {
            lemma_render_item_head(vs[0]);
        }
        lemma_items_round(df, rest);
        assert(seq![vs[0].with_position(0)] + zero_positions(df) =~= zero_positions(vs));
    }
}

/// Serializing a collection and parsing the result reproduces every
/// field of every record; only the position, which is never persisted,
/// comes back cleared for the loader to recompute.
pub proof fn lemma_store_round_trip(vs: Seq<ItemView>)
    ensures
        parse_collection_spec(render_collection_spec(vs)) == Some(zero_positions(vs)),
        zero_positions(vs).len() == vs.len(),
        forall|i: int|
            0 <= i < vs.len() ==> (#[trigger] zero_positions(vs)[i]).same_fields(vs[i]),
{
    let s = render_collection_spec(vs);
    if vs.len() == 0 {
        assert(s =~= seq!['[', ']']);
        assert(s[0] == '[');
        lemma_skip_ws_id(s);
        assert(s.skip(1) =~= seq![']']);
        lemma_skip_ws_id(seq![']']);
        assert(seq![']'][0] == ']');
        assert(seq![']'].skip(1) =~= Seq::<char>::empty());
        assert(skip_ws(Seq::<char>::empty()).len() == 0);
        assert(zero_positions(vs) =~= Seq::<ItemView>::empty());
    } else {
        let body = render_items_spec(vs) + seq![']'];
        assert(s =~= seq!['['] + body);
        assert(s[0] == '[');
        lemma_skip_ws_id(s);
        assert(s.skip(1) =~= body);
        lemma_render_items_head(vs);
        assert(body[0] == '{');
        lemma_skip_ws_id(body);
        lemma_items_round(vs, seq![']']);
        assert(body =~= render_items_spec(vs) + seq![']']);
        lemma_skip_ws_id(seq![']']);
        assert(seq![']'][0] == ']');
        assert(seq![']'].skip(1) =~= Seq::<char>::empty());
        assert(skip_ws(Seq::<char>::empty()).len() == 0);
    }
}

} // verus!



