//! The wizard state machine.
//!
//! One [`App`] value holds the whole interactive session: its phase, the
//! typed path buffer, the committed target path, the selection cursors and
//! the last rendered tree. Abstract input events drive it through
//! [`App::handle_event`]; the surrounding event loop only decodes keys,
//! redraws, refreshes the tree snapshot when asked to, and flushes the file
//! store. The transition relation is stated once, as [`spec_step`], and
//! every method's contract ties the executable state to it.

use vstd::prelude::*;

use crate::catalog::ConfigError;
use crate::catalog::catalog_ids;
use crate::catalog::get_available_stacks;
use crate::catalog::is_stack;
use crate::engine::store_after_stack;
use crate::state::AppState;
use crate::store::FileStore;
use crate::tree::DirSnapshot;
use crate::tree::build_tree_lines;
use crate::tree::spec_tree_lines;

verus! {

/// An abstract input event, as the event loop hands it over: a typed
/// character, a deletion, a confirmation, a cancellation, or a cursor move.
#[derive(Debug, Clone, Copy, PartialEq, Eq, Structural)]
pub enum InputEvent {
    Char(char),
    Backspace,
    Confirm,
    Cancel,
    Down,
    Up,
}

/// One interactive session.
pub struct App {
    pub stacks: Vec<String>,
    pub selected: usize,
    pub should_quit: bool,
    pub state: AppState,
    pub path_input: String,
    pub target_path: String,
    pub tree_lines: Vec<String>,
    pub selected_stack: String,
    pub continue_selected: usize,
}

/// The mathematical state of a session: every field of [`App`] that the
/// transition relation speaks of, as plain values. The rendered tree stays
/// outside; it is display state, recomputed on request.
#[verifier::ext_equal]
pub struct AppModel {
    pub phase: AppState,
    pub stacks: Seq<Seq<char>>,
    pub selected: int,
    pub should_quit: bool,
    pub path_input: Seq<char>,
    pub target_path: Seq<char>,
    pub selected_stack: Seq<char>,
    pub continue_selected: int,
}

/// A session's validity: the catalog snapshot is the catalog, the cursors
/// sit inside their ranges, and a session about to apply holds a stack of
/// the catalog.
pub open spec fn model_wf(m: AppModel) -> bool {
    &&& m.stacks == catalog_ids()
    &&& 0 <= m.selected < m.stacks.len()
    &&& 0 <= m.continue_selected <= 1
    &&& (m.phase == AppState::Confirming ==> is_stack(m.selected_stack))
}

/// The model a fresh session starts from: the path phase when no target is
/// known yet, else straight to stack choice.
pub open spec fn init_model(target: Seq<char>) -> AppModel {
    AppModel {
        phase: if target.len() == 0 {
            AppState::SelectingPath
        } else {
            AppState::SelectingStack
        },
        stacks: catalog_ids(),
        selected: 0,
        should_quit: false,
        path_input: Seq::<char>::empty(),
        target_path: target,
        selected_stack: Seq::<char>::empty(),
        continue_selected: 0,
    }
}

/// The path whose tree the session shows: the typed buffer while entering a
/// path, the committed target afterwards; the current directory while either
/// is empty.
pub open spec fn spec_tree_query(m: AppModel) -> Seq<char> {
    if m.phase == AppState::SelectingPath {
        if m.path_input.len() == 0 {
            "."@
        } else {
            m.path_input
        }
    } else {
        if m.target_path.len() == 0 {
            "."@
        } else {
            m.target_path
        }
    }
}

/// The transition relation of the wizard, one event at a time. Unlisted
/// events leave a phase's state unchanged.
pub open spec fn spec_step(m: AppModel, ev: InputEvent) -> AppModel {
    if m.phase == AppState::SelectingPath {
        match ev {
            InputEvent::Char(c) => AppModel { path_input: m.path_input.push(c), ..m },
            InputEvent::Backspace => AppModel {
                path_input: if m.path_input.len() == 0 {
                    m.path_input
                } else {
                    m.path_input.drop_last()
                },
                ..m
            },
            InputEvent::Confirm => AppModel {
                target_path: if m.path_input.len() == 0 {
                    "."@
                } else {
                    m.path_input
                },
                path_input: Seq::<char>::empty(),
                phase: AppState::SelectingStack,
                ..m
            },
            InputEvent::Cancel => AppModel { should_quit: true, ..m },
            _ => m,
        }
    } else if m.phase == AppState::SelectingStack {
        match ev {
            InputEvent::Down => AppModel {
                selected: if m.selected + 1 < m.stacks.len() {
                    m.selected + 1
                } else {
                    m.selected
                },
                ..m
            },
            InputEvent::Up => AppModel {
                selected: if m.selected > 0 {
                    m.selected - 1
                } else {
                    0
                },
                ..m
            },
            InputEvent::Confirm => AppModel {
                selected_stack: m.stacks[m.selected],
                phase: AppState::Confirming,
                ..m
            },
            InputEvent::Cancel => AppModel { should_quit: true, ..m },
            _ => m,
        }
    } else if m.phase == AppState::Confirming {
        match ev {
            InputEvent::Confirm => AppModel { phase: AppState::ContinueOrQuit, ..m },
            InputEvent::Cancel => AppModel {
                phase: AppState::SelectingStack,
                selected_stack: Seq::<char>::empty(),
                ..m
            },
            _ => m,
        }
    } else {
        match ev {
            InputEvent::Down => AppModel {
                continue_selected: if m.continue_selected < 1 {
                    m.continue_selected + 1
                } else {
                    m.continue_selected
                },
                ..m
            },
            InputEvent::Up => AppModel {
                continue_selected: if m.continue_selected > 0 {
                    m.continue_selected - 1
                } else {
                    0
                },
                ..m
            },
            InputEvent::Confirm => if m.continue_selected == 0 {
                AppModel {
                    path_input: Seq::<char>::empty(),
                    target_path: Seq::<char>::empty(),
                    selected_stack: Seq::<char>::empty(),
                    selected: 0,
                    continue_selected: 0,
                    phase: AppState::SelectingPath,
                    ..m
                }
            } else {
                AppModel { should_quit: true, ..m }
            },
            InputEvent::Cancel => AppModel { should_quit: true, ..m },
            _ => m,
        }
    }
}

/// Whether the event loop must recompute the tree snapshot after an event:
/// after every edit of the path buffer, and after a session reset.
pub open spec fn spec_needs_refresh(m: AppModel, ev: InputEvent) -> bool {
    if m.phase == AppState::SelectingPath {
        ev is Char || ev == InputEvent::Backspace
    } else if m.phase == AppState::ContinueOrQuit {
        ev == InputEvent::Confirm && m.continue_selected == 0
    } else {
        false
    }
}

/// Relies on String::push: appends the one character to the end of the
/// string.
#[verifier::external_body]
fn push_char(s: &mut String, c: char)
    ensures
        final(s)@ == old(s)@.push(c),
{
    s.push(c);
}

impl App {
    /// The mathematical state of this session.
    pub open spec fn model(&self) -> AppModel {
        AppModel {
            phase: self.state,
            stacks: self.stacks.deep_view(),
            selected: self.selected as int,
            should_quit: self.should_quit,
            path_input: self.path_input@,
            target_path: self.target_path@,
            selected_stack: self.selected_stack@,
            continue_selected: self.continue_selected as int,
        }
    }

    /// This session's validity.
    pub open spec fn wf(&self) -> bool {
        model_wf(self.model())
    }

    /// A session over a known target path; an empty path starts at path
    /// entry instead. The tree starts empty: the event loop refreshes it.
    pub fn with_path(target_path: String) -> (r: App)
        ensures
            r.wf(),
            r.model() == init_model(target_path@),
            r.tree_lines@ == Seq::<String>::empty(),
    {
        let stacks = get_available_stacks();
        let state = if target_path.as_str().is_empty() {
            AppState::SelectingPath
        } else {
            AppState::SelectingStack
        };
        let r = App {
            stacks,
            selected: 0,
            should_quit: false,
            state,
            path_input: String::new(),
            target_path,
            tree_lines: Vec::new(),
            selected_stack: String::new(),
            continue_selected: 0,
        };
        proof {
            assert(r.tree_lines@ =~= Seq::<String>::empty());
            assert(r.model() =~= init_model(r.target_path@));
        }
        r
    }

    /// A session with no target path known yet: it starts at path entry.
    pub fn new() -> (r: App)
        ensures
            r.wf(),
            r.model() == init_model(Seq::<char>::empty()),
            r.tree_lines@ == Seq::<String>::empty(),
    {
        let r = App::with_path(String::new());
        proof {
            assert(r.model() =~= init_model(Seq::<char>::empty()));
        }
        r
    }

    /// Move the stack cursor down one entry, saturating at the last.
    pub fn next(&mut self)
        requires
            old(self).wf(),
        ensures
            final(self).wf(),
            final(self).model() == (AppModel {
                selected: if old(self).model().selected + 1 < old(self).model().stacks.len() {
                    old(self).model().selected + 1
                } else {
                    old(self).model().selected
                },
                ..old(self).model()
            }),
            final(self).tree_lines == old(self).tree_lines,
    {
        if self.selected + 1 < self.stacks.len() {
            self.selected = self.selected + 1;
        }
        proof {
            assert(self.model() =~= (AppModel {
                selected: if old(self).model().selected + 1 < old(self).model().stacks.len() {
                    old(self).model().selected + 1
                } else {
                    old(self).model().selected
                },
                ..old(self).model()
            }));
        }
    }

    /// Move the stack cursor up one entry, saturating at the first.
    pub fn previous(&mut self)
        requires
            old(self).wf(),
        ensures
            final(self).wf(),
            final(self).selected == if old(self).selected > 0 {
                old(self).selected - 1
            } else {
                0
            },
            final(self).model() == (AppModel {
                selected: if old(self).model().selected > 0 {
                    old(self).model().selected - 1
                } else {
                    0
                },
                ..old(self).model()
            }),
            final(self).tree_lines == old(self).tree_lines,
    {
        if self.selected > 0 {
            self.selected = self.selected - 1;
        }
        proof {
            assert(self.model() =~= (AppModel {
                selected: if old(self).model().selected > 0 {
                    old(self).model().selected - 1
                } else {
                    0
                },
                ..old(self).model()
            }));
        }
    }

    /// Take the highlighted stack as the pending choice and ask for
    /// confirmation.
    pub fn select(&mut self) -> (r: Result<(), ConfigError>)
        requires
            old(self).wf(),
        ensures
            final(self).wf(),
            r is Ok,
            final(self).model() == (AppModel {
                selected_stack: old(self).model().stacks[old(self).model().selected],
                phase: AppState::Confirming,
                ..old(self).model()
            }),
            final(self).tree_lines == old(self).tree_lines,
    {
        self.selected_stack = self.stacks[self.selected].clone();
        self.state = AppState::Confirming;
        proof {
            assert(self.selected_stack@ == catalog_ids()[old(self).selected as int]);
            assert(is_stack(self.selected_stack@));
            assert(self.model() =~= (AppModel {
                selected_stack: old(self).model().stacks[old(self).model().selected],
                phase: AppState::Confirming,
                ..old(self).model()
            }));
        }
        Ok(())
    }

    /// Apply the pending stack to the committed target path, recording its
    /// files in the store, and move on to the continue choice. A session in
    /// the confirmation phase always holds a stack of the catalog, so the
    /// application succeeds.
    pub fn confirm_and_apply(&mut self, store: &mut FileStore) -> (r: Result<(), ConfigError>)
        requires
            old(self).wf(),
            old(self).state == AppState::Confirming,
        ensures
            final(self).wf(),
            r is Ok,
            final(self).model() == (AppModel {
                phase: AppState::ContinueOrQuit,
                ..old(self).model()
            }),
            final(self).tree_lines == old(self).tree_lines,
            final(store)@ == store_after_stack(
                old(store)@,
                old(self).selected_stack@,
                old(self).target_path@,
            ),
    {
        let res = crate::engine::apply_stack_config(
            self.selected_stack.as_str(),
            self.target_path.as_str(),
            store,
        );
        match res {
            Ok(_) => {
                self.state = AppState::ContinueOrQuit;
                proof {
                    assert(self.model() =~= (AppModel {
                        phase: AppState::ContinueOrQuit,
                        ..old(self).model()
                    }));
                }
                Ok(())
            },
            Err(e) => {
                proof {
                    assert(false);
                }
                Err(e)
            },
        }
    }

    /// Discard the pending choice and return to stack selection.
    pub fn cancel_confirmation(&mut self)
        requires
            old(self).wf(),
        ensures
            final(self).wf(),
            final(self).model() == (AppModel {
                phase: AppState::SelectingStack,
                selected_stack: Seq::<char>::empty(),
                ..old(self).model()
            }),
            final(self).tree_lines == old(self).tree_lines,
    {
        self.selected_stack = String::new();
        self.state = AppState::SelectingStack;
        proof {
            assert(self.model() =~= (AppModel {
                phase: AppState::SelectingStack,
                selected_stack: Seq::<char>::empty(),
                ..old(self).model()
            }));
        }
    }

    /// Start a new project configuration episode: clear the path buffer,
    /// the committed target, the pending choice and the cursors, and return
    /// to path entry. The tree is left for the event loop to refresh.
    pub fn reset_for_new_project(&mut self)
        requires
            old(self).wf(),
        ensures
            final(self).wf(),
            final(self).model() == (AppModel {
                path_input: Seq::<char>::empty(),
                target_path: Seq::<char>::empty(),
                selected_stack: Seq::<char>::empty(),
                selected: 0,
                continue_selected: 0,
                phase: AppState::SelectingPath,
                ..old(self).model()
            }),
            final(self).tree_lines == old(self).tree_lines,
    {
        self.path_input = String::new();
        self.target_path = String::new();
        self.selected_stack = String::new();
        self.selected = 0;
        self.continue_selected = 0;
        self.state = AppState::SelectingPath;
        proof {
            assert(self.model() =~= (AppModel {
                path_input: Seq::<char>::empty(),
                target_path: Seq::<char>::empty(),
                selected_stack: Seq::<char>::empty(),
                selected: 0,
                continue_selected: 0,
                phase: AppState::SelectingPath,
                ..old(self).model()
            }));
        }
    }

    /// Move the continue-or-quit cursor down, saturating at the second of
    /// the two options.
    pub fn next_continue(&mut self)
        requires
            old(self).wf(),
        ensures
            final(self).wf(),
            final(self).model() == (AppModel {
                continue_selected: if old(self).model().continue_selected < 1 {
                    old(self).model().continue_selected + 1
                } else {
                    old(self).model().continue_selected
                },
                ..old(self).model()
            }),
            final(self).tree_lines == old(self).tree_lines,
    {
        if self.continue_selected < 1 {
            self.continue_selected = self.continue_selected + 1;
        }
        proof {
            assert(self.model() =~= (AppModel {
                continue_selected: if old(self).model().continue_selected < 1 {
                    old(self).model().continue_selected + 1
                } else {
                    old(self).model().continue_selected
                },
                ..old(self).model()
            }));
        }
    }

    /// Move the continue-or-quit cursor up, saturating at the first option.
    pub fn previous_continue(&mut self)
        requires
            old(self).wf(),
        ensures
            final(self).wf(),
            final(self).model() == (AppModel {
                continue_selected: if old(self).model().continue_selected > 0 {
                    old(self).model().continue_selected - 1
                } else {
                    0
                },
                ..old(self).model()
            }),
            final(self).tree_lines == old(self).tree_lines,
    {
        if self.continue_selected > 0 {
            self.continue_selected = self.continue_selected - 1;
        }
        proof {
            assert(self.model() =~= (AppModel {
                continue_selected: if old(self).model().continue_selected > 0 {
                    old(self).model().continue_selected - 1
                } else {
                    0
                },
                ..old(self).model()
            }));
        }
    }

    /// Commit the typed buffer as the target path — an empty buffer means
    /// the current directory — clear the buffer, and move to stack choice.
    pub fn confirm_path(&mut self)
        requires
            old(self).wf(),
        ensures
            final(self).wf(),
            final(self).model() == (AppModel {
                target_path: if old(self).model().path_input.len() == 0 {
                    "."@
                } else {
                    old(self).model().path_input
                },
                path_input: Seq::<char>::empty(),
                phase: AppState::SelectingStack,
                ..old(self).model()
            }),
            final(self).tree_lines == old(self).tree_lines,
    {
        if self.path_input.as_str().is_empty() {
            self.target_path = ".".to_owned();
        } else {
            self.target_path = self.path_input.clone();
        }
        self.path_input = String::new();
        self.state = AppState::SelectingStack;
        proof {
            assert(self.model() =~= (AppModel {
                target_path: if old(self).model().path_input.len() == 0 {
                    "."@
                } else {
                    old(self).model().path_input
                },
                path_input: Seq::<char>::empty(),
                phase: AppState::SelectingStack,
                ..old(self).model()
            }));
        }
    }

    /// Append one typed character to the path buffer.
    pub fn handle_path_input(&mut self, c: char)
        requires
            old(self).wf(),
        ensures
            final(self).wf(),
            final(self).model() == (AppModel {
                path_input: old(self).model().path_input.push(c),
                ..old(self).model()
            }),
            final(self).tree_lines == old(self).tree_lines,
    {
        push_char(&mut self.path_input, c);
        proof {
            assert(self.model() =~= (AppModel {
                path_input: old(self).model().path_input.push(c),
                ..old(self).model()
            }));
        }
    }

    /// Remove the last typed character from the path buffer, if any.
    pub fn delete_path_char(&mut self)
        requires
            old(self).wf(),
        ensures
            final(self).wf(),
            final(self).model() == (AppModel {
                path_input: if old(self).model().path_input.len() == 0 {
                    old(self).model().path_input
                } else {
                    old(self).model().path_input.drop_last()
                },
                ..old(self).model()
            }),
            final(self).tree_lines == old(self).tree_lines,
    {
        let n = self.path_input.as_str().unicode_len();
        if n > 0 {
            let shorter = self.path_input.as_str().substring_char(0, n - 1).to_owned();
            self.path_input = shorter;
            proof {
                assert(self.path_input@ =~= old(self).path_input@.drop_last());
            }
        }
        proof {
            assert(self.model() =~= (AppModel {
                path_input: if old(self).model().path_input.len() == 0 {
                    old(self).model().path_input
                } else {
                    old(self).model().path_input.drop_last()
                },
                ..old(self).model()
            }));
        }
    }

    /// The path whose tree this session shows, as `spec_tree_query` states
    /// it: the event loop reads this path's directories and hands the
    /// snapshot back to `update_tree`.
    pub fn tree_query(&self) -> (r: String)
        ensures
            r@ == spec_tree_query(self.model()),
    {
        if self.state == AppState::SelectingPath {
            if self.path_input.as_str().is_empty() {
                ".".to_owned()
            } else {
                self.path_input.clone()
            }
        } else {
            if self.target_path.as_str().is_empty() {
                ".".to_owned()
            } else {
                self.target_path.clone()
            }
        }
    }

    /// Recompute the displayed tree from a fresh snapshot of the path this
    /// session shows, to the fixed display depth.
    pub fn update_tree(&mut self, snapshot: &DirSnapshot)
        requires
            old(self).wf(),
        ensures
            final(self).wf(),
            final(self).model() == old(self).model(),
            final(self).tree_lines.deep_view() == spec_tree_lines(
                spec_tree_query(old(self).model()),
                snapshot@,
                3,
            ),
    {
        let query = self.tree_query();
        let lines = build_tree_lines(query.as_str(), snapshot, 3);
        self.tree_lines = lines;
        proof {
            assert(self.model() =~= old(self).model());
        }
    }

    /// Decide this session's validity, for callers outside the verifier:
    /// exactly `wf`, as the contract states.
    pub fn check_wf(&self) -> (r: bool)
        ensures
            r == self.wf(),
    {
        proof {
            assert(catalog_ids()[0] == "vue"@);
            assert(catalog_ids()[1] == "nuxt"@);
            assert(catalog_ids()[2] == "fastapi"@);
        }
        let ok_stacks = self.stacks.len() == 3 && crate::catalog::str_eq(
            self.stacks[0].as_str(),
            "vue",
        ) && crate::catalog::str_eq(self.stacks[1].as_str(), "nuxt") && crate::catalog::str_eq(
            self.stacks[2].as_str(),
            "fastapi",
        );
        proof {
            if ok_stacks {
                assert(self.stacks.deep_view() =~= catalog_ids());
            } else {
                assert(self.stacks.deep_view() != catalog_ids()) by {
                    if self.stacks.deep_view() == catalog_ids() {
                        assert(self.stacks.deep_view().len() == 3);
                        assert(self.stacks.deep_view()[0] == "vue"@);
                        assert(self.stacks.deep_view()[1] == "nuxt"@);
                        assert(self.stacks.deep_view()[2] == "fastapi"@);
                    }
                }
            }
        }
        let ok_cursors = self.selected < self.stacks.len() && self.continue_selected <= 1;
        let ok_pending = !(self.state == AppState::Confirming) || crate::engine::is_valid_stack(
            self.selected_stack.as_str(),
        );
        ok_stacks && ok_cursors && ok_pending
    }

    /// Step the session by one input event, as `spec_step` states it. The
    /// returned flag asks the event loop to refresh the tree snapshot.
    /// Confirming a pending stack records that stack's files in the store;
    /// no other event touches it.
    pub fn handle_event(&mut self, event: InputEvent, store: &mut FileStore) -> (needs_refresh:
        bool)
        requires
            old(self).wf(),
        ensures
            final(self).wf(),
            final(self).model() == spec_step(old(self).model(), event),
            needs_refresh == spec_needs_refresh(old(self).model(), event),
            final(self).tree_lines == old(self).tree_lines,
            old(self).state == AppState::Confirming && event == InputEvent::Confirm
                ==> final(store)@ == store_after_stack(
                old(store)@,
                old(self).selected_stack@,
                old(self).target_path@,
            ),
            !(old(self).state == AppState::Confirming && event == InputEvent::Confirm)
                ==> *final(store) == *old(store),
    {
        let ghost m0 = self.model();
        match self.state {
            AppState::SelectingPath => {
                match event {
                    InputEvent::Char(c) => {
                        self.handle_path_input(c);
                        proof {
                            assert(self.model() =~= spec_step(m0, event));
                        }
                        true
                    },
                    InputEvent::Backspace => {
                        self.delete_path_char();
                        proof {
                            assert(self.model() =~= spec_step(m0, event));
                        }
                        true
                    },
                    InputEvent::Confirm => {
                        self.confirm_path();
                        proof {
                            assert(self.model() =~= spec_step(m0, event));
                        }
                        false
                    },
                    InputEvent::Cancel => {
                        self.should_quit = true;
                        proof {
                            assert(self.model() =~= spec_step(m0, event));
                        }
                        false
                    },
                    _ => {
                        proof {
                            assert(self.model() =~= spec_step(m0, event));
                        }
                        false
                    },
                }
            },
            AppState::SelectingStack => {
                match event {
                    InputEvent::Down => {
                        self.next();
                        proof {
                            assert(self.model() =~= spec_step(m0, event));
                        }
                        false
                    },
                    InputEvent::Up => {
                        self.previous();
                        proof {
                            assert(self.model() =~= spec_step(m0, event));
                        }
                        false
                    },
                    InputEvent::Confirm => {
                        let _ = self.select();
                        proof {
                            assert(self.model() =~= spec_step(m0, event));
                        }
                        false
                    },
                    InputEvent::Cancel => {
                        self.should_quit = true;
                        proof {
                            assert(self.model() =~= spec_step(m0, event));
                        }
                        false
                    },
                    _ => {
                        proof {
                            assert(self.model() =~= spec_step(m0, event));
                        }
                        false
                    },
                }
            },
            AppState::Confirming => {
                match event {
                    InputEvent::Confirm => {
                        let _ = self.confirm_and_apply(store);
                        proof {
                            assert(self.model() =~= spec_step(m0, event));
                        }
                        false
                    },
                    InputEvent::Cancel => {
                        self.cancel_confirmation();
                        proof {
                            assert(self.model() =~= spec_step(m0, event));
                        }
                        false
                    },
                    _ => {
                        proof {
                            assert(self.model() =~= spec_step(m0, event));
                        }
                        false
                    },
                }
            },
            AppState::ContinueOrQuit => {
                match event {
                    InputEvent::Down => {
                        self.next_continue();
                        proof {
                            assert(self.model() =~= spec_step(m0, event));
                        }
                        false
                    },
                    InputEvent::Up => {
                        self.previous_continue();
                        proof {
                            assert(self.model() =~= spec_step(m0, event));
                        }
                        false
                    },
                    InputEvent::Confirm => {
                        if self.continue_selected == 0 {
                            self.reset_for_new_project();
                            proof {
                                assert(self.model() =~= spec_step(m0, event));
                            }
                            true
                        } else {
                            self.should_quit = true;
                            proof {
                                assert(self.model() =~= spec_step(m0, event));
                            }
                            false
                        }
                    },
                    InputEvent::Cancel => {
                        self.should_quit = true;
                        proof {
                            assert(self.model() =~= spec_step(m0, event));
                        }
                        false
                    },
                    _ => {
                        proof {
                            assert(self.model() =~= spec_step(m0, event));
                        }
                        false
                    },
                }
            },
        }
    }
}

/// From path entry, cancelling always terminates the session, whatever the
/// buffer holds.
pub proof fn lemma_cancel_terminates(m: AppModel)
    requires
        m.phase == AppState::SelectingPath,
    ensures
        spec_step(m, InputEvent::Cancel).should_quit,
{
}

/// From the continue choice, confirming the first option always returns to
/// path entry with the target path cleared.
pub proof fn lemma_restart_returns_to_path(m: AppModel)
    requires
        m.phase == AppState::ContinueOrQuit,
        m.continue_selected == 0,
    ensures
        spec_step(m, InputEvent::Confirm).phase == AppState::SelectingPath,
        spec_step(m, InputEvent::Confirm).target_path == Seq::<char>::empty(),
{
}

/// Every event preserves a session's validity, the cursor bounds included.
pub proof fn lemma_step_preserves_wf(m: AppModel, ev: InputEvent)
    requires
        model_wf(m),
    ensures
        model_wf(spec_step(m, ev)),
{
}

/// A session after a whole sequence of events, first to last.
pub open spec fn spec_run(m: AppModel, evs: Seq<InputEvent>) -> AppModel
    decreases evs.len(),
{
    if evs.len() == 0 {
        m
    } else {
        spec_step(spec_run(m, evs.drop_last()), evs.last())
    }
}

/// Under any sequence of input events, a valid session stays valid: the
/// stack cursor and the continue cursor never leave their ranges.
pub proof fn lemma_cursors_always_bounded(m: AppModel, evs: Seq<InputEvent>)
    requires
        model_wf(m),
    ensures
        model_wf(spec_run(m, evs)),
        0 <= spec_run(m, evs).selected < spec_run(m, evs).stacks.len(),
        0 <= spec_run(m, evs).continue_selected <= 1,
    decreases evs.len(),
{
    if evs.len() > 0 {
        lemma_cursors_always_bounded(m, evs.drop_last());
        lemma_step_preserves_wf(spec_run(m, evs.drop_last()), evs.last());
    }
}

} // verus!
