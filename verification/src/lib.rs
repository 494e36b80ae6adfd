//! Core logic of a small todo-list manager.
//!
//! A todo item is a record of free text plus typed metadata (context,
//! project, tags, dates).  This crate holds the verified logic: the
//! metadata tokenizer, the calendar-date helpers, the persisted-record
//! codec, the display ordering, the filters, and the operations that
//! mutate a collection.  File and console handling live outside it.

use vstd::prelude::*;

pub mod chars;
pub mod dates;
pub mod tokenizer;
pub mod order;
pub mod filter;
pub mod ops;
pub mod lineformat;
pub mod codec;

verus! {

/// One task record.
///
/// `line_number` is the 1-based position of the item in the current
/// collection order; it is recomputed on every load and never persisted.
/// `done_date` being present is the sole done/not-done discriminant.
#[derive(Debug, Clone)]
pub struct TodoItem {
    pub line_number: usize,
    pub priority: Option<char>,
    pub description: String,
    pub context: Option<String>,
    pub project: Option<String>,
    pub tags: Vec<String>,
    pub start_date: String,
    pub due_date: Option<String>,
    pub done_date: Option<String>,
}

/// The mathematical model of a `TodoItem`: every text field as a
/// sequence of characters.
pub ghost struct ItemView {
    pub position: int,
    pub priority: Option<char>,
    pub description: Seq<char>,
    pub context: Option<Seq<char>>,
    pub project: Option<Seq<char>>,
    pub tags: Seq<Seq<char>>,
    pub start_date: Seq<char>,
    pub due_date: Option<Seq<char>>,
    pub done_date: Option<Seq<char>>,
}

impl View for TodoItem {
    type V = ItemView;

    open spec fn view(&self) -> ItemView {
        ItemView {
            position: self.line_number as int,
            priority: self.priority,
            description: self.description@,
            context: self.context.deep_view(),
            project: self.project.deep_view(),
            tags: self.tags.deep_view(),
            start_date: self.start_date@,
            due_date: self.due_date.deep_view(),
            done_date: self.done_date.deep_view(),
        }
    }
}

impl ItemView {
    /// Two items carry the same data when every field but the
    /// recomputed position agrees.
    pub open spec fn same_fields(self, other: ItemView) -> bool {
        &&& self.priority == other.priority
        &&& self.description == other.description
        &&& self.context == other.context
        &&& self.project == other.project
        &&& self.tags == other.tags
        &&& self.start_date == other.start_date
        &&& self.due_date == other.due_date
        &&& self.done_date == other.done_date
    }

    pub open spec fn with_position(self, p: int) -> ItemView {
        ItemView { position: p, ..self }
    }
}

impl TodoItem {
    /// An item is done exactly when a done date is recorded.
    pub fn is_done(&self) -> (r: bool)
        ensures
            r == self@.done_date is Some,
    {
        self.done_date.is_some()
    }
}

} // verus!
