//! What is to be done in a case.
use vstd::prelude::*;
use crate::json::optional;

verus! {

/// Something to be done. `done` is 0 or 1.
pub struct Todo {
    pub id: String,
    pub case_id: String,
    pub title: String,
    pub done: i64,
    pub done_at: Option<String>,
    pub created_at: String,
    pub updated_at: String,
}

/// Something that is to be entered.
pub struct NewTodo {
    pub case_id: String,
    pub title: String,
}

/// What is to be changed.
pub struct UpdateTodo {
    pub title: Option<String>,
    pub done: Option<i64>,
}

/// Something still to be done, with the name of its case.
pub struct OpenTodoRow {
    pub id: String,
    pub case_id: String,
    pub case_name: String,
    pub title: String,
    pub created_at: String,
}

impl NewTodo {
    /// The entry, not yet done.
    pub fn into_todo(self, id: &str, now: &str) -> (r: Todo)
        ensures
            r.id@ == id@,
            r.case_id == self.case_id,
            r.title == self.title,
            r.done == 0,
            r.done_at is None,
            r.created_at@ == now@,
            r.updated_at@ == now@,
            r.consistent(),
    {
        Todo {
            id: String::from_str(id),
            case_id: self.case_id,
            title: self.title,
            done: 0,
            done_at: None,
            created_at: String::from_str(now),
            updated_at: String::from_str(now),
        }
    }
}

impl Todo {
    /// Changes the title, and whether it is done. The time is set when it is
    /// done and cleared when it is not.
    pub fn apply(&mut self, upd: UpdateTodo, now: &str)
        ensures
            final(self).id == old(self).id,
            final(self).case_id == old(self).case_id,
            final(self).created_at == old(self).created_at,
            final(self).updated_at@ == now@,
            final(self).title@ == (match upd.title {
                Some(t) => t@,
                None => old(self).title@,
            }),
            final(self).done == (match upd.done {
                Some(d) => d,
                None => old(self).done,
            }),
            optional(final(self).done_at) == (if upd.done == Some(1i64) {
                Some(now@)
            } else if upd.done == Some(0i64) {
                None
            } else {
                optional(old(self).done_at)
            }),
            old(self).consistent() && (upd.done matches Some(d) ==> d == 0 || d == 1)
                ==> final(self).consistent(),
    {
        if let Some(t) = upd.title {
            self.title = t;
        }
        if let Some(d) = upd.done {
            self.done = d;
            if d == 1 {
                self.done_at = Some(String::from_str(now));
            } else if d == 0 {
                self.done_at = None;
            }
        }
        self.updated_at = String::from_str(now);
    }

    /// Whether it is done exactly if it has a time.
    pub open spec fn consistent(&self) -> bool {
        (self.done == 1 && self.done_at is Some) || (self.done == 0 && self.done_at is None)
    }
}

} // verus!
