use vstd::prelude::*;

verus! {

/// The mathematical value of one task record: the characters of its
/// name and whether it has been marked closed.
#[verifier::ext_equal]
pub struct TaskView {
    pub name: Seq<char>,
    pub closed: bool,
}

/// A task record that has just been created from a name: still open.
pub open spec fn fresh_task(name: Seq<char>) -> TaskView {
    TaskView { name: name, closed: false }
}

/// One entry of the task collection. Identity is positional: a record
/// has no id beyond its index in the owning vector; its `closed` flag
/// only ever flips from false to true.
pub struct TaskItem {
    pub name: String,
    pub closed: bool,
}

impl View for TaskItem {
    type V = TaskView;

    open spec fn view(&self) -> TaskView {
        TaskView { name: self.name@, closed: self.closed }
    }
}

impl DeepView for TaskItem {
    type V = TaskView;

    open spec fn deep_view(&self) -> TaskView {
        self@
    }
}

impl TaskItem {
    /// A fresh, still-open task with the given name.
    pub fn new(name: &str) -> (r: TaskItem)
        ensures
            r@ == fresh_task(name@),
    {
        TaskItem { name: name.to_owned(), closed: false }
    }
}

/// Relies on std's `FromIterator<char> for String`: collecting
/// characters yields the string of exactly those characters, in order.
#[verifier::external_body]
pub(crate) fn chars_to_string(v: &Vec<char>) -> (r: String)
    ensures
        r@ == v@,
{
    v.iter().collect()
}

/// The task store: an ordered collection of task records with the
/// total mutation primitives the session controller applies.
pub trait TaskList: Sized {
    /// The mathematical contents of the store, in display order.
    spec fn task_views(&self) -> Seq<TaskView>;

    /// Append a still-open record with this name at the end. Always
    /// succeeds; the empty name is deliberately permitted.
    fn add(&mut self, name: &str)
        ensures
            final(self).task_views() == old(self).task_views().push(fresh_task(name@)),
    ;

    /// Mark the record at `index` closed, leaving its name and every
    /// other record untouched; out of bounds, change nothing.
    fn close(&mut self, index: usize)
        ensures
            index < old(self).task_views().len() ==> final(self).task_views()
                == old(self).task_views().update(
                    index as int,
                    (TaskView { name: old(self).task_views()[index as int].name, closed: true }),
                ),
            index >= old(self).task_views().len() ==> final(self).task_views()
                == old(self).task_views(),
    ;
}

impl TaskList for Vec<TaskItem> {
    open spec fn task_views(&self) -> Seq<TaskView> {
        self.deep_view()
    }

    fn add(&mut self, name: &str) {
        let item = TaskItem::new(name);
        let ghost iv = item@;
        self.push(item);
        proof {
            assert(self.deep_view() =~= old(self).deep_view().push(iv));
        }
    }

    fn close(&mut self, index: usize) {
        if index < self.len() {
            let t = self.remove(index);
            let closed_item = TaskItem { name: t.name, closed: true };
            let ghost cv = closed_item@;
            self.insert(index, closed_item);
            proof {
                assert forall|j: int| 0 <= j < self@.len() implies self.deep_view()[j]
                    == old(self).deep_view().update(index as int, cv)[j] by {
                    if j < index {
                        assert(self@[j] == old(self)@[j]);
                    } else if j == index {
                        assert(self@[j] == closed_item);
                    } else {
                        assert(self@[j] == old(self)@[j]);
                    }
                }
                assert(self.deep_view() =~= old(self).deep_view().update(index as int, cv));
            }
        }
    }
}

} // verus!
