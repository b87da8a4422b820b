//! The list of tasks with its operations: add, list, complete, delete, load and save.
use vstd::prelude::*;

use crate::codec::{decode, decode_text, encode, encode_text, tasks_view, Task};

verus! {

/// Why an operation of the store failed.
#[derive(Debug, PartialEq, Eq, Structural, Clone, Copy)]
pub enum StoreError {
    /// The backing file could not be opened, read or written.
    Io,
    /// A non-blank line of the backing file lacks the delimiter.
    Parse,
    /// An index outside the list of tasks.
    NotFound,
}

/// An ordered list of tasks, mirrored to a backing file at `file_path`. The order is the
/// order of insertion; users see the tasks numbered from 1.
#[derive(Debug)]
pub struct TodoList {
    tasks: Vec<Task>,
    file_path: String,
}

impl View for TodoList {
    type V = Seq<(Seq<char>, bool)>;

    closed spec fn view(&self) -> Seq<(Seq<char>, bool)> {
        tasks_view(self.tasks@)
    }
}

impl TodoList {
    /// The path of the backing file.
    pub closed spec fn path(&self) -> Seq<char> {
        self.file_path@
    }

    /// An empty list backed by the file at `file_path`.
    pub fn new(file_path: String) -> (r: TodoList)
        ensures
            r@ == Seq::<(Seq<char>, bool)>::empty(),
            r.path() == file_path@,
    {
        let r = TodoList { tasks: Vec::new(), file_path };
        assert(r@ =~= Seq::<(Seq<char>, bool)>::empty());
        r
    }

    /// The path of the backing file.
    pub fn file_path(&self) -> (r: &str)
        ensures
            r@ == self.path(),
    {
        self.file_path.as_str()
    }

    /// The number of tasks.
    pub fn len(&self) -> (r: usize)
        ensures
            r == self@.len(),
    {
        self.tasks.len()
    }

    /// Appends the tasks stored in `text`, the contents of the backing file. When a non-blank
    /// line lacks the delimiter nothing is appended and the result is `Err(Parse)`.
    pub fn load_text(&mut self, text: &str) -> (r: Result<(), StoreError>)
        ensures
            final(self).path() == old(self).path(),
            match decode(text@) {
                Some(ts) => r == Ok::<(), StoreError>(()) && final(self)@ == old(self)@ + ts,
                None => r == Err::<(), StoreError>(StoreError::Parse) && final(self)@ == old(self)@,
            },
    {
        match decode_text(text) {
            Some(mut loaded) => {
                let ghost before = self.tasks@;
                let ghost added = loaded@;
                self.tasks.append(&mut loaded);
                assert(tasks_view(self.tasks@) =~= tasks_view(before) + tasks_view(added));
                Ok(())
            },
            None => Err(StoreError::Parse),
        }
    }

    /// The contents of the backing file for the current tasks: one line per task.
    pub fn save_text(&self) -> (r: String)
        ensures
            r@ == encode(self@),
    {
        encode_text(&self.tasks)
    }

    /// Appends a task with the given description, not completed.
    pub fn add(&mut self, description: String)
        ensures
            final(self).path() == old(self).path(),
            final(self)@ == old(self)@.push((description@, false)),
    {
        let ghost before = self.tasks@;
        self.tasks.push(Task::new(description, false));
        assert(tasks_view(self.tasks@) =~= tasks_view(before).push((description@, false)));
    }

    /// The tasks for display: their number counted from 1, whether each is completed, and its
    /// description.
    pub fn list(&self) -> (r: Vec<(usize, bool, String)>)
        ensures
            r@.len() == self@.len(),
            forall|i: int|
                0 <= i < r@.len() ==> (#[trigger] r@[i]).0 == i + 1 && r@[i].1 == self@[i].1
                    && r@[i].2@ == self@[i].0,
    {
        let mut r: Vec<(usize, bool, String)> = Vec::new();
        let mut i: usize = 0;
        while i < self.tasks.len()
            invariant
                i <= self.tasks.len(),
                r@.len() == i,
                forall|m: int|
                    0 <= m < i ==> (#[trigger] r@[m]).0 == m + 1 && r@[m].1 == self@[m].1
                        && r@[m].2@ == self@[m].0,
            decreases self.tasks.len() - i,
        {
            let task = &self.tasks[i];
            r.push((i + 1, task.completed, task.description.clone()));
            i = i + 1;
        }
        r
    }

    /// Marks the task at the 0-based `index` completed; `Err(NotFound)`, with nothing changed,
    /// when there is no such task.
    pub fn complete(&mut self, index: usize) -> (r: Result<(), StoreError>)
        ensures
            final(self).path() == old(self).path(),
            index < old(self)@.len() ==> r == Ok::<(), StoreError>(()) && final(self)@ == old(
                self,
            )@.update(index as int, (old(self)@[index as int].0, true)),
            index < old(self)@.len() ==> final(self)@.len() == old(self)@.len() && final(self)@[
                index as int
            ].1 && forall|j: int|
                0 <= j < old(self)@.len() && j != index ==> #[trigger] final(self)@[j] == old(
                    self,
                )@[j],
            index >= old(self)@.len() ==> r == Err::<(), StoreError>(StoreError::NotFound)
                && final(self)@ == old(self)@,
    {
        if index < self.tasks.len() {
            let ghost before = self.tasks@;
            self.tasks[index].completed = true;
            assert(tasks_view(self.tasks@) =~= tasks_view(before).update(
                index as int,
                (before[index as int].description@, true),
            ));
            Ok(())
        } else {
            Err(StoreError::NotFound)
        }
    }

    /// Removes and returns the task at the 0-based `index`; `Err(NotFound)`, with nothing
    /// changed, when there is no such task.
    pub fn delete(&mut self, index: usize) -> (r: Result<Task, StoreError>)
        ensures
            final(self).path() == old(self).path(),
            index < old(self)@.len() ==> r is Ok && r->Ok_0@ == old(self)@[index as int]
                && final(self)@ == old(self)@.remove(index as int),
            index < old(self)@.len() ==> final(self)@.len() == old(self)@.len() - 1 && (forall|
                j: int,
            | 0 <= j < index ==> #[trigger] final(self)@[j] == old(self)@[j]) && (forall|j: int|
                index <= j < final(self)@.len() ==> #[trigger] final(self)@[j] == old(self)@[j
                    + 1]),
            index >= old(self)@.len() ==> r is Err && r->Err_0 == StoreError::NotFound
                && final(self)@ == old(self)@,
    {
        if index < self.tasks.len() {
            let ghost before = self.tasks@;
            let removed = self.tasks.remove(index);
            assert(tasks_view(self.tasks@) =~= tasks_view(before).remove(index as int));
            Ok(removed)
        } else {
            Err(StoreError::NotFound)
        }
    }
}

/// The 0-based position of the task that users number `number`, counting from 1; `None` for 0,
/// which numbers no task.
pub fn zero_based(number: usize) -> (r: Option<usize>)
    ensures
        number == 0 ==> r is None,
        number > 0 ==> r == Some((number - 1) as usize),
{
    if number == 0 {
        None
    } else {
        Some(number - 1)
    }
}

} // verus!
