//! The interaction state machine: modes, key handling, and the
//! invariants tying the task list to the selection cursor.
//!
//! The whole behaviour is given by the spec function [`step`], a total
//! function from a session state and a key to the next state together
//! with two effect flags: whether the list must be persisted and
//! whether the run loop must stop. The executable [`Session::handle_key`]
//! is proved to implement `step` exactly; the run loop around it only
//! performs the effects.

use vstd::prelude::*;
use crate::task::{Task, TaskView};

verus! {

/// The interaction mode gating how keys are interpreted.
#[derive(Clone, Copy, Debug, PartialEq, Eq, Structural)]
pub enum Mode {
    /// Browsing the list: navigation, toggle, delete, quit.
    Normal,
    /// Typing the title of a task to be created.
    Creating,
    /// Retyping the title of an existing task.
    TaskEditing,
}

/// A key event as the state machine sees it. Character keys carry the
/// character; the named keys are the ones with mode-dependent meaning.
#[derive(Clone, Copy, Debug, PartialEq, Eq)]
pub enum Key {
    Char(char),
    Enter,
    Backspace,
    Delete,
    Esc,
    Up,
    Down,
}

/// Mathematical model of a session: the task list, the mode, the text
/// buffer, the selection cursor and the index being edited.
#[verifier::ext_equal]
pub ghost struct SessionView {
    pub tasks: Seq<TaskView>,
    pub mode: Mode,
    pub buffer: Seq<char>,
    pub selection: Option<int>,
    pub editing: Option<int>,
}

/// What one transition yields: the next state, whether the task list
/// must be persisted before the transition counts as complete, and
/// whether the run loop must stop.
#[verifier::ext_equal]
pub ghost struct Step {
    pub state: SessionView,
    pub save: bool,
    pub quit: bool,
}

impl SessionView {
    /// Well-formedness: the selection is absent exactly when the list is
    /// empty and otherwise a valid index; the editing index exists and is
    /// valid exactly while in `TaskEditing` mode.
    pub open spec fn wf(self) -> bool {
        &&& (self.selection is None <==> self.tasks.len() == 0)
        &&& (self.selection is Some ==> 0 <= self.selection->0 < self.tasks.len())
        &&& (self.mode is TaskEditing ==> self.editing is Some && 0 <= self.editing->0
            < self.tasks.len())
        &&& (!(self.mode is TaskEditing) ==> self.editing is None)
    }
}

/// A transition that changes nothing and has no effect.
pub open spec fn stay(s: SessionView) -> Step {
    Step { state: s, save: false, quit: false }
}

/// Selection moved one entry down, clamped to the last index; on an
/// empty list nothing moves.
pub open spec fn step_down(s: SessionView) -> Step {
    if s.tasks.len() == 0 {
        stay(s)
    } else {
        let next = match s.selection {
            None => 0int,
            Some(i) => if i + 1 < s.tasks.len() { i + 1 } else { s.tasks.len() - 1 },
        };
        stay(SessionView { selection: Some(next), ..s })
    }
}

/// Selection moved one entry up, stopping at the first index.
pub open spec fn step_up(s: SessionView) -> Step {
    match s.selection {
        Some(i) => if i > 0 { stay(SessionView { selection: Some(i - 1), ..s }) } else { stay(s) },
        None => stay(s),
    }
}

/// The completion flag of the selected task flipped; persisted.
pub open spec fn step_toggle(s: SessionView) -> Step {
    match s.selection {
        Some(i) => if 0 <= i < s.tasks.len() {
            let t = s.tasks[i];
            let toggled = TaskView { completed: !t.completed, ..t };
            Step {
                state: SessionView { tasks: s.tasks.update(i, toggled), ..s },
                save: true,
                quit: false,
            }
        } else {
            stay(s)
        },
        None => stay(s),
    }
}

/// The selected task removed and the selection re-clamped: absent on a
/// now-empty list, moved one up if it pointed past the new end, kept
/// otherwise; persisted.
pub open spec fn step_delete(s: SessionView) -> Step {
    match s.selection {
        Some(i) => if 0 <= i < s.tasks.len() {
            let rest = s.tasks.remove(i);
            let sel = if rest.len() == 0 {
                None
            } else if i == rest.len() {
                Some(i - 1)
            } else {
                Some(i)
            };
            Step {
                state: SessionView { tasks: rest, selection: sel, ..s },
                save: true,
                quit: false,
            }
        } else {
            stay(s)
        },
        None => stay(s),
    }
}

/// Editing of the selected task begun: its title becomes the buffer.
pub open spec fn step_begin_edit(s: SessionView) -> Step {
    match s.selection {
        Some(i) => if 0 <= i < s.tasks.len() {
            stay(
                SessionView {
                    mode: Mode::TaskEditing,
                    buffer: s.tasks[i].title,
                    editing: Some(i),
                    ..s
                },
            )
        } else {
            stay(s)
        },
        None => stay(s),
    }
}

/// The buffer with its last character dropped; empty stays empty.
pub open spec fn buffer_pop(b: Seq<char>) -> Seq<char> {
    if b.len() == 0 {
        b
    } else {
        b.drop_last()
    }
}

/// Transitions out of `Normal` mode.
pub open spec fn step_normal(s: SessionView, k: Key) -> Step {
    match k {
        Key::Char(c) => if c == 'e' {
            stay(SessionView { mode: Mode::Creating, buffer: Seq::empty(), ..s })
        } else if c == 'q' {
            Step { state: s, save: false, quit: true }
        } else if c == 'j' {
            step_down(s)
        } else if c == 'k' {
            step_up(s)
        } else if c == ' ' {
            step_toggle(s)
        } else {
            stay(s)
        },
        Key::Down => step_down(s),
        Key::Up => step_up(s),
        Key::Enter => step_begin_edit(s),
        Key::Delete => step_delete(s),
        Key::Backspace => step_delete(s),
        Key::Esc => stay(s),
    }
}

/// Transitions out of `Creating` mode.
pub open spec fn step_creating(s: SessionView, k: Key) -> Step {
    match k {
        Key::Char(c) => stay(SessionView { buffer: s.buffer.push(c), ..s }),
        Key::Backspace => stay(SessionView { buffer: buffer_pop(s.buffer), ..s }),
        Key::Enter => if s.buffer.len() > 0 {
            let created = TaskView { title: s.buffer, completed: false };
            let sel = match s.selection {
                None => Some(0int),
                Some(i) => Some(i),
            };
            Step {
                state: SessionView {
                    tasks: s.tasks.push(created),
                    mode: Mode::Normal,
                    buffer: Seq::empty(),
                    selection: sel,
                    ..s
                },
                save: true,
                quit: false,
            }
        } else {
            stay(SessionView { mode: Mode::Normal, ..s })
        },
        Key::Esc => stay(SessionView { mode: Mode::Normal, buffer: Seq::empty(), ..s }),
        _ => stay(s),
    }
}

/// Transitions out of `TaskEditing` mode.
pub open spec fn step_editing(s: SessionView, k: Key) -> Step {
    match k {
        Key::Char(c) => stay(SessionView { buffer: s.buffer.push(c), ..s }),
        Key::Backspace => stay(SessionView { buffer: buffer_pop(s.buffer), ..s }),
        Key::Enter => match s.editing {
            Some(i) => {
                let back = SessionView {
                    mode: Mode::Normal,
                    buffer: Seq::empty(),
                    editing: None,
                    ..s
                };
                if s.buffer.len() > 0 && 0 <= i < s.tasks.len() {
                    let renamed = TaskView { title: s.buffer, ..s.tasks[i] };
                    Step {
                        state: SessionView { tasks: s.tasks.update(i, renamed), ..back },
                        save: true,
                        quit: false,
                    }
                } else {
                    stay(back)
                }
            },
            None => stay(s),
        },
        Key::Esc => stay(
            SessionView { mode: Mode::Normal, buffer: Seq::empty(), editing: None, ..s },
        ),
        _ => stay(s),
    }
}

/// The full transition function: spec of one key applied to one state.
pub open spec fn step(s: SessionView, k: Key) -> Step {
    match s.mode {
        Mode::Normal => step_normal(s, k),
        Mode::Creating => step_creating(s, k),
        Mode::TaskEditing => step_editing(s, k),
    }
}

/// Live application state: the task list, the mode, the text buffer,
/// the selection cursor and, while editing, the index being edited.
pub struct Session {
    pub tasks: Vec<Task>,
    pub mode: Mode,
    pub buffer: String,
    pub selection: Option<usize>,
    pub editing: Option<usize>,
}

/// What the caller must do after a transition: persist the list, stop
/// the run loop, or neither.
#[derive(Clone, Copy, Debug, PartialEq, Eq, Structural)]
pub struct Outcome {
    pub save: bool,
    pub quit: bool,
}

impl View for Session {
    type V = SessionView;

    open spec fn view(&self) -> SessionView {
        SessionView {
            tasks: self.tasks.deep_view(),
            mode: self.mode,
            buffer: self.buffer@,
            selection: match self.selection {
                Some(i) => Some(i as int),
                None => None,
            },
            editing: match self.editing {
                Some(i) => Some(i as int),
                None => None,
            },
        }
    }
}

impl Session {
    /// The initial state over a loaded task list: `Normal` mode, empty
    /// buffer, and the first task selected when there is one.
    pub fn new(tasks: Vec<Task>) -> (s: Session)
        ensures
            s@.tasks == tasks.deep_view(),
            s@.mode is Normal,
            s@.buffer.len() == 0,
            s@.selection == (if tasks@.len() == 0 { None::<int> } else { Some(0int) }),
            s@.editing is None,
            s@.wf(),
    {
        let selection: Option<usize> = if tasks.len() == 0 { None } else { Some(0) };
        Session { tasks, mode: Mode::Normal, buffer: String::new(), selection, editing: None }
    }

    /// Applies one key: the state afterwards and the returned effect
    /// flags are exactly those of [`step`]. A well-formed session stays
    /// well formed.
    pub fn handle_key(&mut self, k: Key) -> (r: Outcome)
        ensures
            final(self)@ == step(old(self)@, k).state,
            r.save == step(old(self)@, k).save,
            r.quit == step(old(self)@, k).quit,
            old(self)@.wf() ==> final(self)@.wf(),
    {
        proof {
            if old(self)@.wf() {
                lemma_step_preserves_wf(old(self)@, k);
            }
        }
        match self.mode {
            Mode::Normal => self.handle_key_normal(k),
            Mode::Creating => self.handle_key_creating(k),
            Mode::TaskEditing => self.handle_key_editing(k),
        }
    }

    fn handle_key_normal(&mut self, k: Key) -> (r: Outcome)
        requires
            old(self)@.mode is Normal,
        ensures
            final(self)@ == step(old(self)@, k).state,
            r.save == step(old(self)@, k).save,
            r.quit == step(old(self)@, k).quit,
    {
        match k {
            Key::Char('e') => {
                self.mode = Mode::Creating;
                self.buffer = String::new();
                Outcome { save: false, quit: false }
            },
            Key::Char('q') => Outcome { save: false, quit: true },
            Key::Char('j') | Key::Down => {
                if self.tasks.len() > 0 {
                    let last: usize = self.tasks.len() - 1;
                    self.selection = match self.selection {
                        None => Some(0),
                        Some(i) => if i < last {
                            Some(i + 1)
                        } else {
                            Some(last)
                        },
                    };
                }
                Outcome { save: false, quit: false }
            },
            Key::Char('k') | Key::Up => {
                if let Some(i) = self.selection {
                    if i > 0 {
                        self.selection = Some(i - 1);
                    }
                }
                Outcome { save: false, quit: false }
            },
            Key::Char(' ') => {
                if let Some(i) = self.selection {
                    if i < self.tasks.len() {
                        let t = self.tasks.remove(i);
                        let toggled = Task { title: t.title, completed: !t.completed };
                        self.tasks.insert(i, toggled);
                        proof {
                            assert(self@.tasks =~= step(old(self)@, k).state.tasks);
                        }
                        return Outcome { save: true, quit: false };
                    }
                }
                Outcome { save: false, quit: false }
            },
            Key::Delete | Key::Backspace => {
                if let Some(i) = self.selection {
                    if i < self.tasks.len() {
                        self.tasks.remove(i);
                        if self.tasks.len() == 0 {
                            self.selection = None;
                        } else if i == self.tasks.len() {
                            self.selection = Some(i - 1);
                        }
                        proof {
                            assert(self@.tasks =~= step(old(self)@, k).state.tasks);
                        }
                        return Outcome { save: true, quit: false };
                    }
                }
                Outcome { save: false, quit: false }
            },
            Key::Enter => {
                if let Some(i) = self.selection {
                    if i < self.tasks.len() {
                        self.buffer = self.tasks[i].title.clone();
                        self.editing = Some(i);
                        self.mode = Mode::TaskEditing;
                    }
                }
                Outcome { save: false, quit: false }
            },
            _ => Outcome { save: false, quit: false },
        }
    }

    fn handle_key_creating(&mut self, k: Key) -> (r: Outcome)
        requires
            old(self)@.mode is Creating,
        ensures
            final(self)@ == step(old(self)@, k).state,
            r.save == step(old(self)@, k).save,
            r.quit == step(old(self)@, k).quit,
    {
        match k {
            Key::Char(c) => {
                crate::strutil::push_char(&mut self.buffer, c);
                Outcome { save: false, quit: false }
            },
            Key::Backspace => {
                crate::strutil::pop_char(&mut self.buffer);
                Outcome { save: false, quit: false }
            },
            Key::Enter => {
                if self.buffer.as_str().is_empty() {
                    self.mode = Mode::Normal;
                    Outcome { save: false, quit: false }
                } else {
                    let title = self.buffer.clone();
                    self.buffer = String::new();
                    self.tasks.push(Task { title, completed: false });
                    if self.selection.is_none() {
                        self.selection = Some(0);
                    }
                    self.mode = Mode::Normal;
                    proof {
                        assert(self@.tasks =~= step(old(self)@, k).state.tasks);
                    }
                    Outcome { save: true, quit: false }
                }
            },
            Key::Esc => {
                self.mode = Mode::Normal;
                self.buffer = String::new();
                Outcome { save: false, quit: false }
            },
            _ => Outcome { save: false, quit: false },
        }
    }

    fn handle_key_editing(&mut self, k: Key) -> (r: Outcome)
        requires
            old(self)@.mode is TaskEditing,
        ensures
            final(self)@ == step(old(self)@, k).state,
            r.save == step(old(self)@, k).save,
            r.quit == step(old(self)@, k).quit,
    {
        match k {
            Key::Char(c) => {
                crate::strutil::push_char(&mut self.buffer, c);
                Outcome { save: false, quit: false }
            },
            Key::Backspace => {
                crate::strutil::pop_char(&mut self.buffer);
                Outcome { save: false, quit: false }
            },
            Key::Enter => {
                if let Some(i) = self.editing {
                    let nonempty = !self.buffer.as_str().is_empty();
                    if nonempty && i < self.tasks.len() {
                        let title = self.buffer.clone();
                        let t = self.tasks.remove(i);
                        self.tasks.insert(i, Task { title, completed: t.completed });
                        self.buffer = String::new();
                        self.editing = None;
                        self.mode = Mode::Normal;
                        proof {
                            assert(self@.tasks =~= step(old(self)@, k).state.tasks);
                        }
                        return Outcome { save: true, quit: false };
                    }
                    self.buffer = String::new();
                    self.editing = None;
                    self.mode = Mode::Normal;
                }
                Outcome { save: false, quit: false }
            },
            Key::Esc => {
                self.buffer = String::new();
                self.editing = None;
                self.mode = Mode::Normal;
                Outcome { save: false, quit: false }
            },
            _ => Outcome { save: false, quit: false },
        }
    }
}

/// Every transition keeps a session well formed: in particular the
/// selection stays absent exactly when the task list is empty, and
/// otherwise a valid index.
pub proof fn lemma_step_preserves_wf(s: SessionView, k: Key)
    requires
        s.wf(),
    ensures
        step(s, k).state.wf(),
{
}

/// The state after a whole sequence of keys, applied in order.
pub open spec fn run_steps(s: SessionView, ks: Seq<Key>) -> SessionView
    decreases ks.len(),
{
    if ks.len() == 0 {
        s
    } else {
        run_steps(step(s, ks[0]).state, ks.drop_first())
    }
}

/// Over any sequence of transitions from a well-formed state — such as
/// the initial one — the session stays well formed: the selection is
/// `None` exactly when the task list is empty, and otherwise a valid
/// index.
pub proof fn lemma_run_preserves_wf(s: SessionView, ks: Seq<Key>)
    requires
        s.wf(),
    ensures
        run_steps(s, ks).wf(),
    decreases ks.len(),
{
    if ks.len() > 0 {
        lemma_step_preserves_wf(s, ks[0]);
        lemma_run_preserves_wf(step(s, ks[0]).state, ks.drop_first());
    }
}

/// Toggling the selected task twice restores its completion flag, and
/// both transitions ask for the list to be persisted.
pub proof fn lemma_toggle_twice(s: SessionView)
    requires
        s.wf(),
        s.mode is Normal,
        s.tasks.len() > 0,
    ensures
        ({
            let once = step(s, Key::Char(' '));
            let twice = step(once.state, Key::Char(' '));
            &&& once.save
            &&& twice.save
            &&& twice.state.tasks == s.tasks
        }),
{
    let once = step(s, Key::Char(' '));
    let twice = step(once.state, Key::Char(' '));
    assert(twice.state.tasks =~= s.tasks);
}

/// Confirming a creation with an empty buffer leaves the task list as
/// it was and persists nothing.
pub proof fn lemma_create_empty_buffer(s: SessionView)
    requires
        s.mode is Creating,
        s.buffer.len() == 0,
    ensures
        step(s, Key::Enter).state.tasks == s.tasks,
        !step(s, Key::Enter).save,
{
}

/// Leaving `TaskEditing` mode with Esc keeps every task, in particular
/// the edited one's title, unchanged, however the buffer was modified.
pub proof fn lemma_edit_escape_keeps_titles(s: SessionView)
    requires
        s.mode is TaskEditing,
    ensures
        step(s, Key::Esc).state.tasks == s.tasks,
        !step(s, Key::Esc).save,
{
}

/// Deleting the selected task persists, removes exactly that entry, and
/// re-clamps the selection: absent when the list becomes empty, kept at
/// the same index (now holding the subsequent task) when a non-last
/// entry was removed, and moved one up when the last entry was.
pub proof fn lemma_delete_selected(s: SessionView)
    requires
        s.wf(),
        s.mode is Normal,
        s.selection is Some,
    ensures
        ({
            let i = s.selection->0;
            let r = step(s, Key::Delete);
            &&& r.save
            &&& r.state.tasks == s.tasks.remove(i)
            &&& (s.tasks.len() == 1 ==> r.state.selection is None)
            &&& (i < s.tasks.len() - 1 ==> r.state.selection == Some(i)
                && r.state.tasks[i] == s.tasks[i + 1])
            &&& (s.tasks.len() > 1 && i == s.tasks.len() - 1 ==> r.state.selection == Some(
                i - 1,
            ))
        }),
{
}

} // verus!
