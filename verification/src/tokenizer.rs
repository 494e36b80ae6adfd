//! The metadata tokenizer.
//!
//! A raw entry is split on white space; each word is classified by its
//! prefix (`@context`, `P:project`, `T:tag`, `Due:date`, and — for
//! persisted lines — `S:start` and `D:done`).  Words matching no prefix
//! are kept, in order, as the description.  Context, project, due,
//! start and done follow a first-wins policy; every tag accumulates.

use vstd::prelude::*;

use crate::chars::{chars_of, is_space, is_space_char, string_from_chars};

verus! {

/// The word-splitting machine: scan `s` from `i`, growing the current
/// word `cur`, emitting it into `acc` at each white-space boundary.
/// `words_of(s)` is what `str::split_whitespace` yields.
pub open spec fn words_acc(s: Seq<char>, i: int, cur: Seq<char>, acc: Seq<Seq<char>>) -> Seq<
    Seq<char>,
>
    decreases s.len() - i,
{
    if i < 0 || i >= s.len() {
        if cur.len() == 0 {
            acc
        } else {
            acc.push(cur)
        }
    } else if is_space_char(s[i]) {
        if cur.len() == 0 {
            words_acc(s, i + 1, cur, acc)
        } else {
            words_acc(s, i + 1, Seq::empty(), acc.push(cur))
        }
    } else {
        words_acc(s, i + 1, cur.push(s[i]), acc)
    }
}

/// The maximal white-space-free words of `s`, in order.
pub open spec fn words_of(s: Seq<char>) -> Seq<Seq<char>> {
    words_acc(s, 0, Seq::empty(), Seq::empty())
}

/// Splits a character vector into its white-space-separated words.
pub fn split_words(v: &Vec<char>) -> (ws: Vec<Vec<char>>)
    ensures
        ws.deep_view() == words_of(v@),
{
    let mut ws: Vec<Vec<char>> = Vec::new();
    let mut cur: Vec<char> = Vec::new();
    let mut i: usize = 0;
    proof {
        assert(ws.deep_view() =~~= Seq::<Seq<char>>::empty());
        assert(cur@ =~= Seq::<char>::empty());
    }
    while i < v.len()
        invariant
            0 <= i <= v.len(),
            words_of(v@) == words_acc(v@, i as int, cur@, ws.deep_view()),
        decreases v.len() - i,
    {
        let ghost old_ws = ws.deep_view();
        let ghost old_cur = cur@;
        let c = v[i];
        if is_space(c) {
            if cur.len() > 0 {
                ws.push(cur);
                cur = Vec::new();
                proof {
                    assert(ws.deep_view() =~~= old_ws.push(old_cur));
                    assert(cur@ =~= Seq::<char>::empty());
                }
            }
        } else {
            cur.push(c);
        }
        i += 1;
    }
    if cur.len() > 0 {
        let ghost old_ws = ws.deep_view();
        let ghost old_cur = cur@;
        ws.push(cur);
        proof {
            assert(ws.deep_view() =~~= old_ws.push(old_cur));
        }
    }
    ws
}

/// A word giving a context: `@` plus at least one payload character.
pub open spec fn is_context_word(w: Seq<char>) -> bool {
    w.len() >= 2 && w[0] == '@'
}

/// A word giving a project: a `P:` or `p:` prefix.
pub open spec fn is_project_word(w: Seq<char>) -> bool {
    w.len() >= 2 && (w[0] == 'P' || w[0] == 'p') && w[1] == ':'
}

/// A word giving a tag: a `T:` or `t:` prefix.
pub open spec fn is_tag_word(w: Seq<char>) -> bool {
    w.len() >= 2 && (w[0] == 'T' || w[0] == 't') && w[1] == ':'
}

/// A word giving a due date: a `Due:` or `due:` prefix.
pub open spec fn is_due_word(w: Seq<char>) -> bool {
    w.len() >= 4 && (w[0] == 'D' || w[0] == 'd') && w[1] == 'u' && w[2] == 'e' && w[3] == ':'
}

/// A word giving a start date: an `S:` or `s:` prefix.
pub open spec fn is_start_word(w: Seq<char>) -> bool {
    w.len() >= 2 && (w[0] == 'S' || w[0] == 's') && w[1] == ':'
}

/// A word giving a done date: a `D:` or `d:` prefix.
pub open spec fn is_done_word(w: Seq<char>) -> bool {
    w.len() >= 2 && (w[0] == 'D' || w[0] == 'd') && w[1] == ':'
}

/// The state of the classifier: description words kept so far and the
/// metadata fields collected so far.
pub ghost struct TokView {
    pub words: Seq<Seq<char>>,
    pub context: Option<Seq<char>>,
    pub project: Option<Seq<char>>,
    pub tags: Seq<Seq<char>>,
    pub due: Option<Seq<char>>,
    pub start: Option<Seq<char>>,
    pub done: Option<Seq<char>>,
}

pub open spec fn empty_tok() -> TokView {
    TokView {
        words: Seq::empty(),
        context: None,
        project: None,
        tags: Seq::empty(),
        due: None,
        start: None,
        done: None,
    }
}

/// Classifies one word.  A metadata word is always consumed; its
/// payload is kept only where the field's policy says so (first wins
/// for every field but tags, which accumulate).  With `dates` false the
/// `S:`/`D:` prefixes are ordinary description words.
pub open spec fn tok_step(st: TokView, w: Seq<char>, dates: bool) -> TokView {
    if is_context_word(w) {
        if st.context is None {
            TokView { context: Some(w.skip(1)), ..st }
        } else {
            st
        }
    } else if is_project_word(w) {
        if st.project is None {
            TokView { project: Some(w.skip(2)), ..st }
        } else {
            st
        }
    } else if is_tag_word(w) {
        TokView { tags: st.tags.push(w.skip(2)), ..st }
    } else if is_due_word(w) {
        if st.due is None {
            TokView { due: Some(w.skip(4)), ..st }
        } else {
            st
        }
    } else if dates && is_start_word(w) {
        if st.start is None {
            TokView { start: Some(w.skip(2)), ..st }
        } else {
            st
        }
    } else if dates && is_done_word(w) {
        if st.done is None {
            TokView { done: Some(w.skip(2)), ..st }
        } else {
            st
        }
    } else {
        TokView { words: st.words.push(w), ..st }
    }
}

pub open spec fn tok_fold(ws: Seq<Seq<char>>, i: int, st: TokView, dates: bool) -> TokView
    decreases ws.len() - i,
{
    if i < 0 || i >= ws.len() {
        st
    } else {
        tok_fold(ws, i + 1, tok_step(st, ws[i], dates), dates)
    }
}

/// The tokenizer, as a function of the raw input: split into words,
/// then classify each in order.
pub open spec fn tokenize_spec(s: Seq<char>, dates: bool) -> TokView {
    tok_fold(words_of(s), 0, empty_tok(), dates)
}

/// Words joined by single spaces.
pub open spec fn join_words(ws: Seq<Seq<char>>) -> Seq<char>
    decreases ws.len(),
{
    if ws.len() == 0 {
        Seq::empty()
    } else if ws.len() == 1 {
        ws[0]
    } else {
        join_words(ws.drop_last()) + seq![' '] + ws.last()
    }
}

/// The copy of `w` from index `k` on.
pub fn tail_chars(w: &Vec<char>, k: usize) -> (r: Vec<char>)
    requires
        k <= w.len(),
    ensures
        r@ == w@.skip(k as int),
{
    let mut r: Vec<char> = Vec::new();
    let mut i: usize = k;
    while i < w.len()
        invariant
            k <= i <= w.len(),
            r@ =~= w@.subrange(k as int, i as int),
        decreases w.len() - i,
    {
        r.push(w[i]);
        i += 1;
    }
    proof {
        assert(r@ =~= w@.skip(k as int));
    }
    r
}

/// The outcome of tokenizing one entry.
pub struct Tokenized {
    pub description: String,
    pub context: Option<String>,
    pub project: Option<String>,
    pub tags: Vec<String>,
    pub due: Option<String>,
    pub start: Option<String>,
    pub done: Option<String>,
}

impl Tokenized {
    /// The exec fields agree with a classifier state.
    pub open spec fn matches(self, st: TokView) -> bool {
        &&& self.description@ == join_words(st.words)
        &&& self.context.deep_view() == st.context
        &&& self.project.deep_view() == st.project
        &&& self.tags.deep_view() == st.tags
        &&& self.due.deep_view() == st.due
        &&& self.start.deep_view() == st.start
        &&& self.done.deep_view() == st.done
    }
}

/// Splits an entry into a clean description and its metadata fields.
/// With `dates` true the persisted-line prefixes `S:` and `D:` are
/// recognized as well.
pub fn tokenize(input: &str, dates: bool) -> (t: Tokenized)
    ensures
        t.matches(tokenize_spec(input@, dates)),
{
    let v = chars_of(input);
    let ws = split_words(&v);
    let ghost target = tokenize_spec(input@, dates);
    let mut desc_words: Vec<Vec<char>> = Vec::new();
    let mut context: Option<String> = None;
    let mut project: Option<String> = None;
    let mut tags: Vec<String> = Vec::new();
    let mut due: Option<String> = None;
    let mut start: Option<String> = None;
    let mut done: Option<String> = None;
    let ghost mut st = empty_tok();
    proof {
        assert(desc_words.deep_view() =~~= st.words);
        assert(tags.deep_view() =~~= st.tags);
    }
    let mut k: usize = 0;
    while k < ws.len()
        invariant
            0 <= k <= ws.len(),
            target == tokenize_spec(input@, dates),
            tokenize_spec(input@, dates) == tok_fold(ws.deep_view(), k as int, st, dates),
            ws.deep_view().len() == ws.len(),
            desc_words.deep_view() == st.words,
            context.deep_view() == st.context,
            project.deep_view() == st.project,
            tags.deep_view() == st.tags,
            due.deep_view() == st.due,
            start.deep_view() == st.start,
            done.deep_view() == st.done,
        decreases ws.len() - k,
    {
        let w = &ws[k];
        proof {
            assert(ws.deep_view()[k as int] == ws@[k as int].deep_view());
            assert(ws.deep_view()[k as int] == w@);
        }
        let ghost prev = st;
        proof {
            st = tok_step(st, w@, dates);
        }
        let long_enough = w.len() >= 2;
        if long_enough && w[0] == '@' {
            if context.is_none() {
                context = Some(string_from_chars(&tail_chars(w, 1)));
            }
        } else if long_enough && (w[0] == 'P' || w[0] == 'p') && w[1] == ':' {
            if project.is_none() {
                project = Some(string_from_chars(&tail_chars(w, 2)));
            }
        } else if long_enough && (w[0] == 'T' || w[0] == 't') && w[1] == ':' {
            let ghost old_tags = tags.deep_view();
            tags.push(string_from_chars(&tail_chars(w, 2)));
            proof {
                assert(tags.deep_view() =~~= old_tags.push(w@.skip(2)));
            }
        } else if w.len() >= 4 && (w[0] == 'D' || w[0] == 'd') && w[1] == 'u' && w[2] == 'e'
            && w[3] == ':' {
            if due.is_none() {
                due = Some(string_from_chars(&tail_chars(w, 4)));
            }
        } else if dates && long_enough && (w[0] == 'S' || w[0] == 's') && w[1] == ':' {
            if start.is_none() {
                start = Some(string_from_chars(&tail_chars(w, 2)));
            }
        } else if dates && long_enough && (w[0] == 'D' || w[0] == 'd') && w[1] == ':' {
            if done.is_none() {
                done = Some(string_from_chars(&tail_chars(w, 2)));
            }
        } else {
            let ghost old_words = desc_words.deep_view();
            desc_words.push(w.clone());
            proof {
                assert(desc_words.deep_view() =~~= old_words.push(w@));
            }
        }
        k += 1;
    }
    let description = join_desc(&desc_words);
    Tokenized { description, context, project, tags, due, start, done }
}

/// Joins words with single spaces.
pub fn join_desc(ws: &Vec<Vec<char>>) -> (s: String)
    ensures
        s@ == join_words(ws.deep_view()),
{
    let mut out: Vec<char> = Vec::new();
    let mut k: usize = 0;
    proof {
        assert(ws.deep_view().subrange(0, 0) =~= Seq::<Seq<char>>::empty());
    }
    while k < ws.len()
        invariant
            0 <= k <= ws.len(),
            ws.deep_view().len() == ws.len(),
            out@ == join_words(ws.deep_view().subrange(0, k as int)),
        decreases ws.len() - k,
    {
        let ghost old_out = out@;
        if k > 0 {
            out.push(' ');
        }
        let w = &ws[k];
        proof {
            assert(ws.deep_view()[k as int] == ws@[k as int].deep_view());
        }
        let mut j: usize = 0;
        let ghost mid = out@;
        while j < w.len()
            invariant
                0 <= j <= w.len(),
                out@ =~= mid + w@.subrange(0, j as int),
            decreases w.len() - j,
        {
            out.push(w[j]);
            j += 1;
        }
        proof {
            let pre = ws.deep_view().subrange(0, k as int);
            let ext = ws.deep_view().subrange(0, k + 1 as int);
            assert(ext.drop_last() =~= pre);
            assert(ext.last() == ws.deep_view()[k as int]);
            if k == 0 {
                assert(out@ =~= join_words(ext));
            } else {
                assert(out@ =~= join_words(pre) + seq![' '] + ws.deep_view()[k as int]);
                assert(out@ =~= join_words(ext));
            }
        }
        k += 1;
    }
    proof {
        assert(ws.deep_view().subrange(0, ws.len() as int) =~= ws.deep_view());
    }
    string_from_chars(&out)
}

/// Splits a user entry into a clean description, a context, a project
/// and tags.  The first `@word` wins; later ones are consumed but
/// dropped.  The first `P:`/`p:` word wins likewise.  Every `T:`/`t:`
/// word contributes one tag, in order.  `Due:`/`due:` words are
/// consumed; their payload is reachable through `tokenize`.
pub fn parse_metadata(input: &str) -> (r: (String, Option<String>, Option<String>, Vec<String>))
    ensures
        ({
            let st = tokenize_spec(input@, false);
            &&& r.0@ == join_words(st.words)
            &&& r.1.deep_view() == st.context
            &&& r.2.deep_view() == st.project
            &&& r.3.deep_view() == st.tags
        }),
{
    let t = tokenize(input, false);
    (t.description, t.context, t.project, t.tags)
}

} // verus!
