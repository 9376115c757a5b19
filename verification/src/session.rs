use crate::keys::{Key, KeyMap};
use crate::tasks::{chars_to_string, fresh_task, TaskItem, TaskList, TaskView};
use vstd::prelude::*;
use vstd::string::StringExecFns;

verus! {

/// A decoded key press, as the session core understands it. The
/// surrounding binary translates whatever its terminal library
/// reports into one of these plain values.
#[derive(PartialEq, Eq, Structural, Clone, Copy, Debug)]
pub enum KeyInput {
    /// A printable character.
    Char(char),
    /// The commit key.
    Enter,
    /// The erase key.
    Backspace,
    /// Any key the session does not interpret.
    Other,
}

/// The session's modal state: browsing the list, or inserting a new
/// task with the text typed so far. The buffer exists only while
/// inserting; committing or abandoning it returns to `Browse`.
pub enum Mode {
    /// Typing a new task; the payload is the in-progress buffer.
    Insert(Vec<char>),
    /// Navigating the list.
    Browse,
}

/// The mathematical value of a `Mode`.
pub enum ModeView {
    Insert(Seq<char>),
    Browse,
}

impl View for Mode {
    type V = ModeView;

    open spec fn view(&self) -> ModeView {
        match self {
            Mode::Insert(buf) => ModeView::Insert(buf@),
            Mode::Browse => ModeView::Browse,
        }
    }
}

/// The mutation (or termination) request the mode machine emits for
/// the controller to apply. The machine itself never touches the
/// task store or the selection.
pub enum Intent {
    /// Close the task at the current selection.
    CloseSelected,
    /// Drop every task.
    ClearAll,
    /// Move the selection one entry up.
    MoveUp,
    /// Move the selection one entry down.
    MoveDown,
    /// Append a task whose name is the committed buffer.
    Append(Vec<char>),
    /// End the session.
    Quit,
}

/// The mathematical value of an `Intent`.
pub enum IntentView {
    CloseSelected,
    ClearAll,
    MoveUp,
    MoveDown,
    Append(Seq<char>),
    Quit,
}

impl View for Intent {
    type V = IntentView;

    open spec fn view(&self) -> IntentView {
        match self {
            Intent::CloseSelected => IntentView::CloseSelected,
            Intent::ClearAll => IntentView::ClearAll,
            Intent::MoveUp => IntentView::MoveUp,
            Intent::MoveDown => IntentView::MoveDown,
            Intent::Append(buf) => IntentView::Append(buf@),
            Intent::Quit => IntentView::Quit,
        }
    }
}

/// The view of an optional intent.
pub open spec fn intent_view(i: Option<Intent>) -> Option<IntentView> {
    match i {
        Some(x) => Some(x@),
        None => None,
    }
}

/// The mode one key press leads to: `i` opens an empty insert buffer;
/// while inserting, a character extends the buffer, erase drops its
/// last character, and commit returns to browsing.
pub open spec fn mode_step(m: ModeView, k: KeyInput) -> ModeView {
    match m {
        ModeView::Browse => match k {
            KeyInput::Char(c) => if c == 'i' {
                ModeView::Insert(Seq::empty())
            } else {
                ModeView::Browse
            },
            _ => ModeView::Browse,
        },
        ModeView::Insert(buf) => match k {
            KeyInput::Enter => ModeView::Browse,
            KeyInput::Char(c) => ModeView::Insert(buf.push(c)),
            KeyInput::Backspace => ModeView::Insert(
                if buf.len() == 0 {
                    buf
                } else {
                    buf.drop_last()
                },
            ),
            KeyInput::Other => ModeView::Insert(buf),
        },
    }
}

/// The intent, if any, that one key press emits. Committing emits the
/// buffer's content as it stood before the mode returns to `Browse`:
/// commit-then-clear, never the other way around.
pub open spec fn mode_intent(m: ModeView, k: KeyInput) -> Option<IntentView> {
    match m {
        ModeView::Browse => match k {
            KeyInput::Char(c) => if c == 'q' {
                Some(IntentView::Quit)
            } else if c == 'c' {
                Some(IntentView::CloseSelected)
            } else if c == '0' {
                Some(IntentView::ClearAll)
            } else if c == 'k' {
                Some(IntentView::MoveUp)
            } else if c == 'j' {
                Some(IntentView::MoveDown)
            } else {
                None
            },
            _ => None,
        },
        ModeView::Insert(buf) => match k {
            KeyInput::Enter => Some(IntentView::Append(buf)),
            _ => None,
        },
    }
}

impl Mode {
    /// Feed one key press to the modal machine: the next mode, and the
    /// intent, if any, for the controller to apply. A pure function of
    /// mode and key.
    pub fn step(self, key: KeyInput) -> (r: (Mode, Option<Intent>))
        ensures
            r.0@ == mode_step(self@, key),
            intent_view(r.1) == mode_intent(self@, key),
    {
        match self {
            Mode::Browse => match key {
                KeyInput::Char(c) => {
                    if c == 'i' {
                        (Mode::Insert(Vec::new()), None)
                    } else if c == 'q' {
                        (Mode::Browse, Some(Intent::Quit))
                    } else if c == 'c' {
                        (Mode::Browse, Some(Intent::CloseSelected))
                    } else if c == '0' {
                        (Mode::Browse, Some(Intent::ClearAll))
                    } else if c == 'k' {
                        (Mode::Browse, Some(Intent::MoveUp))
                    } else if c == 'j' {
                        (Mode::Browse, Some(Intent::MoveDown))
                    } else {
                        (Mode::Browse, None)
                    }
                },
                _ => (Mode::Browse, None),
            },
            Mode::Insert(buf) => match key {
                KeyInput::Enter => (Mode::Browse, Some(Intent::Append(buf))),
                KeyInput::Char(c) => {
                    let mut b = buf;
                    b.push(c);
                    (Mode::Insert(b), None)
                },
                KeyInput::Backspace => {
                    let mut b = buf;
                    if b.len() > 0 {
                        b.pop();
                        proof {
                            assert(b@ =~= buf@.drop_last());
                        }
                    }
                    (Mode::Insert(b), None)
                },
                KeyInput::Other => (Mode::Insert(buf), None),
            },
        }
    }

    /// The key bindings worth advertising in this mode.
    pub fn get_key_map(&self) -> (r: Vec<Key<String>>)
        ensures
            self is Browse ==> r@.len() == 1 && r@[0].code@ == "i"@ && r@[0].short@
                == "insert new task mode"@,
            self is Insert ==> r@.len() == 0,
    {
        match self {
            Mode::Browse => {
                let mut keys: Vec<Key<String>> = Vec::new();
                keys.register(
                    Key::new(String::from_str("i"), String::from_str("insert new task mode")),
                );
                keys
            },
            _ => Vec::new(),
        }
    }
}

/// Where the selection lands after one step up: saturating at the
/// first entry.
pub open spec fn sel_up(i: int) -> int {
    if i > 0 {
        i - 1
    } else {
        0
    }
}

/// Where the selection lands after one step down through `count`
/// entries: one past the current index, clamped to the last entry;
/// with nothing to select the index is pinned to 0.
pub open spec fn sel_down(i: int, count: int) -> int {
    if count <= 0 {
        0
    } else if i + 1 < count {
        i + 1
    } else {
        count - 1
    }
}

/// The index re-clamped after the collection's size changed.
pub open spec fn sel_clamp(i: int, count: int) -> int {
    if count <= 0 {
        0
    } else if i < count {
        i
    } else {
        count - 1
    }
}

/// A selection index agreeing with a collection of `count` entries:
/// within bounds while there is anything to select, pinned to 0
/// otherwise (and then ignored).
pub open spec fn sel_ok(i: int, count: int) -> bool {
    if count == 0 {
        i == 0
    } else {
        0 <= i < count
    }
}

/// The list cursor: the index of the task currently highlighted for
/// navigation and closing. All its operations are total.
pub struct Selection {
    pub index: usize,
}

impl Selection {
    /// A cursor at the top of the list.
    pub fn new() -> (r: Selection)
        ensures
            r.index == 0,
    {
        Selection { index: 0 }
    }

    /// One step towards the top, saturating at the first entry.
    pub fn move_up(&mut self)
        ensures
            final(self).index as int == sel_up(old(self).index as int),
    {
        if self.index > 0 {
            self.index = self.index - 1;
        }
    }

    /// One step towards the bottom of `count` entries, clamped to the
    /// last one.
    pub fn move_down(&mut self, count: usize)
        ensures
            final(self).index as int == sel_down(old(self).index as int, count as int),
    {
        if count == 0 {
            self.index = 0;
        } else if self.index < count - 1 {
            self.index = self.index + 1;
        } else {
            self.index = count - 1;
        }
    }

    /// Re-apply the saturating bounds after the collection's size
    /// changed.
    pub fn clamp(&mut self, count: usize)
        ensures
            final(self).index as int == sel_clamp(old(self).index as int, count as int),
    {
        if count == 0 {
            self.index = 0;
        } else if self.index >= count {
            self.index = count - 1;
        }
    }
}

/// One browse move per element: `true` steps down through `count`
/// entries, `false` steps up.
pub open spec fn apply_moves(i: int, count: int, moves: Seq<bool>) -> int
    decreases moves.len(),
{
    if moves.len() == 0 {
        i
    } else {
        apply_moves(
            if moves[0] {
                sel_down(i, count)
            } else {
                sel_up(i)
            },
            count,
            moves.drop_first(),
        )
    }
}

/// However the user moves: after any sequence of down and up steps
/// from an agreeing index, the selection still agrees with the
/// collection — within `[0, count)`, or pinned to 0 when `count` is 0.
pub proof fn lemma_moves_stay_in_bounds(i: int, count: int, moves: Seq<bool>)
    requires
        sel_ok(i, count),
    ensures
        sel_ok(apply_moves(i, count, moves), count),
    decreases moves.len(),
{
    if moves.len() > 0 {
        lemma_moves_stay_in_bounds(
            if moves[0] {
                sel_down(i, count)
            } else {
                sel_up(i)
            },
            count,
            moves.drop_first(),
        );
    }
}

/// The task collection after an intent is applied to it.
pub open spec fn intent_tasks(ts: Seq<TaskView>, sel: int, iv: IntentView) -> Seq<TaskView> {
    match iv {
        IntentView::CloseSelected => if 0 <= sel < ts.len() {
            ts.update(sel, (TaskView { name: ts[sel].name, closed: true }))
        } else {
            ts
        },
        IntentView::ClearAll => Seq::empty(),
        IntentView::Append(name) => ts.push(fresh_task(name)),
        _ => ts,
    }
}

/// The selection after an intent is applied: moves move it, and any
/// change of the collection's size re-clamps it at once.
pub open spec fn intent_sel(ts: Seq<TaskView>, sel: int, iv: IntentView) -> int {
    match iv {
        IntentView::MoveUp => sel_up(sel),
        IntentView::MoveDown => sel_down(sel, ts.len() as int),
        IntentView::ClearAll => 0,
        IntentView::Append(name) => sel_clamp(sel, ts.len() as int + 1),
        IntentView::CloseSelected => sel,
        IntentView::Quit => sel,
    }
}

/// The task collection after one key press in the given mode.
pub open spec fn session_tasks(ts: Seq<TaskView>, sel: int, m: ModeView, k: KeyInput) -> Seq<
    TaskView,
> {
    match mode_intent(m, k) {
        Some(iv) => intent_tasks(ts, sel, iv),
        None => ts,
    }
}

/// The selection after one key press in the given mode.
pub open spec fn session_sel(ts: Seq<TaskView>, sel: int, m: ModeView, k: KeyInput) -> int {
    match mode_intent(m, k) {
        Some(iv) => intent_sel(ts, sel, iv),
        None => sel,
    }
}

/// Whether one key press in the given mode ends the session.
pub open spec fn session_quits(m: ModeView, k: KeyInput) -> bool {
    mode_intent(m, k) == Some(IntentView::Quit)
}

/// The store after committing each name in turn: for each, the modal
/// machine in insert mode with that buffer receives the commit key,
/// and the emitted append is applied.
pub open spec fn commit_all(ts: Seq<TaskView>, names: Seq<Seq<char>>) -> Seq<TaskView>
    decreases names.len(),
{
    if names.len() == 0 {
        ts
    } else {
        commit_all(
            session_tasks(ts, 0, ModeView::Insert(names[0]), KeyInput::Enter),
            names.drop_first(),
        )
    }
}

/// Committing N names in order appends exactly those N tasks, in
/// commit order, each still open, after whatever was already stored.
pub proof fn lemma_commits_append(ts: Seq<TaskView>, names: Seq<Seq<char>>)
    ensures
        commit_all(ts, names).len() == ts.len() + names.len(),
        forall|k: int| 0 <= k < ts.len() ==> commit_all(ts, names)[k] == ts[k],
        forall|k: int| 0 <= k < names.len() ==> commit_all(ts, names)[ts.len() + k]
            == fresh_task(names[k]),
    decreases names.len(),
{
    if names.len() > 0 {
        let ts2 = ts.push(fresh_task(names[0]));
        assert(session_tasks(ts, 0, ModeView::Insert(names[0]), KeyInput::Enter) == ts2);
        lemma_commits_append(ts2, names.drop_first());
        assert forall|k: int| 0 <= k < ts.len() implies commit_all(ts, names)[k] == ts[k] by {
            assert(commit_all(ts2, names.drop_first())[k] == ts2[k]);
        }
        assert forall|k: int| 0 <= k < names.len() implies commit_all(ts, names)[ts.len() + k]
            == fresh_task(names[k]) by {
            if k == 0 {
                assert(commit_all(ts, names)[ts.len() as int] == ts2[ts.len() as int]);
            } else {
                assert(commit_all(ts2, names.drop_first())[ts2.len() + (k - 1)] == fresh_task(
                    names.drop_first()[k - 1],
                ));
            }
        }
    }
}

/// Clearing then adding one name leaves exactly that one still-open
/// task, whatever was stored before: clear is unconditional.
pub proof fn lemma_clear_then_add(ts: Seq<TaskView>, sel: int, name: Seq<char>)
    ensures
        intent_tasks(intent_tasks(ts, sel, IntentView::ClearAll), 0, IntentView::Append(name))
            == seq![fresh_task(name)],
{
    assert(intent_tasks(
        intent_tasks(ts, sel, IntentView::ClearAll),
        0,
        IntentView::Append(name),
    ) =~= seq![fresh_task(name)]);
}

/// The whole per-session state the controller owns: the task store,
/// the modal machine and the selection. Loaded once at start, saved
/// once at end; mode and selection are session-scoped.
pub struct Session {
    pub tasks: Vec<TaskItem>,
    pub mode: Mode,
    pub selection: Selection,
}

impl Session {
    /// The session invariant: the selection agrees with the task
    /// count at every step.
    pub open spec fn wf(self) -> bool {
        sel_ok(self.selection.index as int, self.tasks@.len() as int)
    }

    /// A fresh session over previously loaded tasks: browsing, with
    /// the selection at the top.
    pub fn new(tasks: Vec<TaskItem>) -> (r: Session)
        ensures
            r.tasks@ == tasks@,
            r.mode is Browse,
            r.selection.index == 0,
            r.wf(),
    {
        Session { tasks, mode: Mode::Browse, selection: Selection::new() }
    }

    /// Apply one emitted intent to the store and the selection,
    /// re-clamping the selection after any size change. Returns
    /// whether the intent asks the session to end.
    pub fn apply_intent(&mut self, intent: Intent) -> (quit: bool)
        ensures
            final(self).tasks.deep_view() == intent_tasks(
                old(self).tasks.deep_view(),
                old(self).selection.index as int,
                intent@,
            ),
            final(self).selection.index as int == intent_sel(
                old(self).tasks.deep_view(),
                old(self).selection.index as int,
                intent@,
            ),
            final(self).mode == old(self).mode,
            quit == (intent@ is Quit),
    {
        match intent {
            Intent::CloseSelected => {
                let idx = self.selection.index;
                self.tasks.close(idx);
                false
            },
            Intent::ClearAll => {
                self.tasks.clear();
                self.selection.clamp(0);
                proof {
                    assert(self.tasks.deep_view() =~= Seq::<TaskView>::empty());
                }
                false
            },
            Intent::MoveUp => {
                self.selection.move_up();
                false
            },
            Intent::MoveDown => {
                let count = self.tasks.len();
                self.selection.move_down(count);
                false
            },
            Intent::Append(buf) => {
                let name = chars_to_string(&buf);
                self.tasks.add(name.as_str());
                let count = self.tasks.len();
                self.selection.clamp(count);
                false
            },
            Intent::Quit => true,
        }
    }

    /// One key press, decoded in the current mode and applied: the
    /// whole of a tick's mutation. Returns true when the session
    /// should end.
    pub fn handle_key(&mut self, key: KeyInput) -> (quit: bool)
        ensures
            final(self).tasks.deep_view() == session_tasks(
                old(self).tasks.deep_view(),
                old(self).selection.index as int,
                old(self).mode@,
                key,
            ),
            final(self).selection.index as int == session_sel(
                old(self).tasks.deep_view(),
                old(self).selection.index as int,
                old(self).mode@,
                key,
            ),
            final(self).mode@ == mode_step(old(self).mode@, key),
            quit == session_quits(old(self).mode@, key),
            old(self).wf() ==> final(self).wf(),
    {
        let mut mode = Mode::Browse;
        core::mem::swap(&mut mode, &mut self.mode);
        let (next_mode, intent) = mode.step(key);
        self.mode = next_mode;
        let quit = match intent {
            Some(i) => self.apply_intent(i),
            None => false,
        };
        proof {
            if old(self).wf() {
                let ts = old(self).tasks.deep_view();
                let sel = old(self).selection.index as int;
                assert(ts.len() == old(self).tasks@.len());
                assert(self.tasks.deep_view().len() == self.tasks@.len());
                assert(sel_ok(
                    session_sel(ts, sel, old(self).mode@, key),
                    self.tasks@.len() as int,
                ));
            }
        }
        quit
    }
}

} // verus!
