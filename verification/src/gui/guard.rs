//! Guarding unsaved changes: opening another file and quitting wait for the
//! user's answer while there are any.

use vstd::prelude::*;
use crate::gui::state::{GuiState, GuiView};
use crate::value;

verus! {

/// A destructive action deferred while the unsaved-changes prompt is up:
/// replacing the current session with another file, or quitting.
pub enum PendingAction {
    Open(String),
    Quit,
}

/// What a deferred action holds.
#[verifier::ext_equal]
pub enum PendingView {
    Open(Seq<char>),
    Quit,
}

impl View for PendingAction {
    type V = PendingView;

    open spec fn view(&self) -> PendingView {
        match self {
            PendingAction::Open(path) => PendingView::Open(path@),
            PendingAction::Quit => PendingView::Quit,
        }
    }
}

/// What an optional deferred action holds.
pub open spec fn pending_view(p: Option<PendingAction>) -> Option<PendingView> {
    match p {
        Some(p) => Some(p@),
        None => None,
    }
}

/// What the frontend has to do in the outside world.
pub enum Effect {
    Nothing,
    /// Load the file at a path.
    Open(String),
    /// Let the user pick a file to open.
    PickFile,
    /// Write the setup sidecar.
    SaveSetup,
    /// Close the window.
    Close,
}

/// What an effect holds.
#[verifier::ext_equal]
pub enum EffectView {
    Nothing,
    Open(Seq<char>),
    PickFile,
    SaveSetup,
    Close,
}

impl View for Effect {
    type V = EffectView;

    open spec fn view(&self) -> EffectView {
        match self {
            Effect::Nothing => EffectView::Nothing,
            Effect::Open(path) => EffectView::Open(path@),
            Effect::PickFile => EffectView::PickFile,
            Effect::SaveSetup => EffectView::SaveSetup,
            Effect::Close => EffectView::Close,
        }
    }
}

/// An answer to the unsaved-changes prompt.
#[derive(Clone, Copy, Debug, PartialEq, Eq, Structural)]
pub enum Answer {
    Save,
    Discard,
    Cancel,
}

/// What stands between the user and losing changes.
pub struct Guard {
    /// A file-open or quit awaiting the user's answer to the unsaved-changes
    /// prompt. While set, the prompt is shown and normal key shortcuts pause.
    pub pending: Option<PendingAction>,
    /// Set once quitting was approved, so the re-issued close request is allowed
    /// through instead of re-prompting.
    pub allow_close: bool,
}

/// What the guard holds.
#[verifier::ext_equal]
pub struct GuardView {
    pub pending: Option<PendingView>,
    pub allow_close: bool,
}

impl View for Guard {
    type V = GuardView;

    open spec fn view(&self) -> GuardView {
        GuardView { pending: pending_view(self.pending), allow_close: self.allow_close }
    }
}

impl GuardView {
    /// The guard once the deferred action is carried out.
    pub open spec fn resolved(self) -> GuardView {
        GuardView {
            pending: None,
            allow_close: self.allow_close || self.pending == Some(PendingView::Quit),
        }
    }

    /// What carrying out the deferred action takes.
    pub open spec fn deferred(self) -> EffectView {
        match self.pending {
            Some(PendingView::Open(path)) => EffectView::Open(path),
            Some(PendingView::Quit) => EffectView::Close,
            None => EffectView::Nothing,
        }
    }

    /// The guard after a request to quit.
    pub open spec fn quitting(self, unsaved: bool) -> GuardView {
        if unsaved {
            GuardView { pending: Some(PendingView::Quit), ..self }
        } else {
            GuardView { allow_close: true, ..self }
        }
    }

    /// The guard after a request to open a file.
    pub open spec fn opening(self, path: Seq<char>, unsaved: bool) -> GuardView {
        if unsaved {
            GuardView { pending: Some(PendingView::Open(path)), ..self }
        } else {
            self
        }
    }

    /// Whether an answer lets the deferred action proceed.
    pub open spec fn proceeds(answer: Answer, unsaved: bool) -> bool {
        answer == Answer::Discard || (answer == Answer::Save && !unsaved)
    }

    /// The guard after an answer to the prompt.
    pub open spec fn answered(self, answer: Answer, unsaved: bool) -> GuardView {
        if GuardView::proceeds(answer, unsaved) {
            self.resolved()
        } else {
            GuardView { pending: None, ..self }
        }
    }

    /// The guard after a request to close the window.
    pub open spec fn closing(self, unsaved: bool) -> GuardView {
        if !self.allow_close && unsaved && self.pending is None {
            GuardView { pending: Some(PendingView::Quit), ..self }
        } else {
            self
        }
    }
}

impl Default for Guard {
    fn default() -> (r: Guard)
        ensures
            r@ == (GuardView { pending: None, allow_close: false }),
    {
        Guard { pending: None, allow_close: false }
    }
}

impl Guard {
    /// Ask to open a file: with unsaved changes the request is stashed and the
    /// prompt decides.
    pub fn request_open(&mut self, path: String, unsaved: bool) -> (r: Effect)
        ensures
            final(self)@ == old(self)@.opening(path@, unsaved),
            r@ == if unsaved {
                EffectView::Nothing
            } else {
                EffectView::Open(path@)
            },
    {
        if unsaved {
            self.pending = Some(PendingAction::Open(path));
            Effect::Nothing
        } else {
            Effect::Open(path)
        }
    }

    /// Ask to quit: with unsaved changes the prompt is raised, otherwise the
    /// window closes straight away.
    pub fn request_quit(&mut self, unsaved: bool) -> (r: Effect)
        ensures
            final(self)@ == old(self)@.quitting(unsaved),
            r@ == if unsaved {
                EffectView::Nothing
            } else {
                EffectView::Close
            },
    {
        if unsaved {
            self.pending = Some(PendingAction::Quit);
            Effect::Nothing
        } else {
            self.allow_close = true;
            Effect::Close
        }
    }

    /// Carry out the deferred action once the user has chosen to proceed (either
    /// after saving or after discarding).
    pub fn resolve_pending(&mut self) -> (r: Effect)
        ensures
            final(self)@ == old(self)@.resolved(),
            r@ == old(self)@.deferred(),
    {
        match self.pending.take() {
            Some(PendingAction::Open(path)) => Effect::Open(path),
            Some(PendingAction::Quit) => {
                // The re-issued close request is let through.
                self.allow_close = true;
                Effect::Close
            },
            None => Effect::Nothing,
        }
    }

    /// Act on the answer to the prompt.
    pub fn answer(&mut self, answer: Answer, unsaved: bool) -> (r: Effect)
        ensures
            final(self)@ == old(self)@.answered(answer, unsaved),
            r@ == if GuardView::proceeds(answer, unsaved) {
                old(self)@.deferred()
            } else {
                EffectView::Nothing
            },
    {
        let proceed = match answer {
            Answer::Discard => true,
            Answer::Save => !unsaved,
            Answer::Cancel => false,
        };
        if proceed {
            self.resolve_pending()
        } else {
            self.pending = None;
            Effect::Nothing
        }
    }

    /// Whether a request to close the window has to be cancelled: with unsaved
    /// changes that were not given up, the prompt is raised instead.
    pub fn close_requested(&mut self, unsaved: bool) -> (r: bool)
        ensures
            r == (!old(self)@.allow_close && unsaved),
            final(self)@ == old(self)@.closing(unsaved),
    {
        if self.allow_close || !unsaved {
            return false;
        }
        if self.pending.is_none() {
            self.pending = Some(PendingAction::Quit);
        }
        true
    }

    /// What the prompt asks, while it is up.
    pub fn prompt_text(&self) -> (r: Option<String>)
        ensures
            value::text_of(r) == match self@.pending {
                Some(PendingView::Open(_)) => Some(
                    "You have unsaved changes to the setup.\nSave before opening another file?"@,
                ),
                Some(PendingView::Quit) => Some(
                    "You have unsaved changes to the setup.\nSave before quitting?"@,
                ),
                None => None,
            },
    {
        match &self.pending {
            Some(PendingAction::Open(_)) => Some(
                "You have unsaved changes to the setup.\nSave before opening another file?".to_string(),
            ),
            Some(PendingAction::Quit) => Some(
                "You have unsaved changes to the setup.\nSave before quitting?".to_string(),
            ),
            None => None,
        }
    }

    /// Whether shortcuts and keys act at all: they pause while the prompt is up.
    pub fn takes_keys(&self) -> (r: bool)
        ensures
            r == self@.pending is None,
    {
        self.pending.is_none()
    }
}

impl GuiState {
    /// Ask to open a file, guarding the current session's unsaved changes.
    pub fn request_open(&mut self, path: String) -> (r: Effect)
        ensures
            final(self)@ == (GuiView {
                guard: old(self)@.guard.opening(path@, old(self)@.unsaved()),
                ..old(self)@
            }),
            r@ == if old(self)@.unsaved() {
                EffectView::Nothing
            } else {
                EffectView::Open(path@)
            },
    {
        let unsaved = self.has_unsaved();
        self.guard.request_open(path, unsaved)
    }

    /// Ask to quit, guarding the current session's unsaved changes.
    pub fn request_quit(&mut self) -> (r: Effect)
        ensures
            final(self)@ == (GuiView {
                guard: old(self)@.guard.quitting(old(self)@.unsaved()),
                ..old(self)@
            }),
            r@ == if old(self)@.unsaved() {
                EffectView::Nothing
            } else {
                EffectView::Close
            },
    {
        let unsaved = self.has_unsaved();
        self.guard.request_quit(unsaved)
    }

    /// Act on the answer to the unsaved-changes prompt. On `Save` the caller has
    /// tried to save the setup: the action proceeds only if that landed, so that
    /// no changes are lost silently.
    pub fn answer(&mut self, answer: Answer) -> (r: Effect)
        ensures
            final(self)@ == (GuiView {
                guard: old(self)@.guard.answered(answer, old(self)@.unsaved()),
                ..old(self)@
            }),
            r@ == if GuardView::proceeds(answer, old(self)@.unsaved()) {
                old(self)@.guard.deferred()
            } else {
                EffectView::Nothing
            },
    {
        let unsaved = self.has_unsaved();
        self.guard.answer(answer, unsaved)
    }

    /// Whether a request to close the window has to be cancelled.
    pub fn close_requested(&mut self) -> (r: bool)
        ensures
            r == (!old(self)@.guard.allow_close && old(self)@.unsaved()),
            final(self)@ == (GuiView {
                guard: old(self)@.guard.closing(old(self)@.unsaved()),
                ..old(self)@
            }),
    {
        let unsaved = self.has_unsaved();
        self.guard.close_requested(unsaved)
    }
}

/// Unsaved changes are never lost without the user's consent: until quitting is
/// approved, a close request is cancelled and the prompt is up, and only an
/// answer that discards the changes, or a save that landed, proceeds.
pub proof fn law_unsaved_changes_are_guarded(g: GuardView, path: Seq<char>, answer: Answer)
    requires
        !g.allow_close,
    ensures
        g.closing(true).pending is Some,
        !g.closing(true).allow_close,
        g.quitting(true).pending == Some(PendingView::Quit),
        !g.quitting(true).allow_close,
        g.opening(path, true).pending == Some(PendingView::Open(path)),
        !g.opening(path, true).allow_close,
        g.answered(answer, true).allow_close ==> answer == Answer::Discard && g.pending == Some(
            PendingView::Quit,
        ),
        g.answered(answer, true).pending is None,
{
}

/// Without unsaved changes nothing is held back. With them the answer decides: a save
/// that landed and a discard go on with what was held back, anything else drops it.
pub proof fn law_answers(g: GuardView, path: Seq<char>, answer: Answer, unsaved: bool)
    ensures
        g.quitting(false).allow_close && g.quitting(false).pending == g.pending,
        g.opening(path, false) == g,
        g.closing(false) == g,
        g.allow_close ==> g.closing(unsaved) == g,
        g.pending is Some ==> g.closing(unsaved) == g,
        GuardView::proceeds(Answer::Discard, unsaved),
        GuardView::proceeds(Answer::Save, unsaved) == !unsaved,
        !GuardView::proceeds(Answer::Cancel, unsaved),
        g.answered(answer, unsaved).pending is None,
        g.pending == Some(PendingView::Quit) ==> g.answered(Answer::Discard, unsaved).allow_close
            && g.answered(Answer::Save, false).allow_close && g.deferred() == EffectView::Close,
        g.pending == Some(PendingView::Open(path)) ==> g.answered(answer, unsaved).allow_close
            == g.allow_close && g.deferred() == EffectView::Open(path),
        g.answered(Answer::Cancel, unsaved).allow_close == g.allow_close,
        g.answered(Answer::Save, true).allow_close == g.allow_close,
        g.pending is None ==> g.deferred() == EffectView::Nothing,
{
}

} // verus!
