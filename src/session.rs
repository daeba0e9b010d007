//! The session that records whether a model was set up, and routes text
//! through the normalizer once it was.
use vstd::prelude::*;
use crate::normalizer::{format_text_rule_based, normalize};

verus! {

/// What a session knows: the model path and whether the model counts as
/// loaded, or nothing before initialisation and after shutdown.
pub type SessionModel = Option<(Seq<char>, bool)>;

/// The session after an initialisation with `path`, where `found` says
/// whether a model file exists there. A missing file leaves it as it was.
pub open spec fn initialized(v: SessionModel, path: Seq<char>, found: bool) -> SessionModel {
    if found {
        Some((path, true))
    } else {
        v
    }
}

/// A model is recorded and loaded.
pub open spec fn ready(v: SessionModel) -> bool {
    match v {
        Some(st) => st.1,
        None => false,
    }
}

/// What the session makes of `text`: nothing without a session, the
/// rule-based cleanup with one.
pub open spec fn processed(v: SessionModel, text: Seq<char>) -> Seq<char> {
    match v {
        Some(_) => normalize(text),
        None => text,
    }
}

struct ModelState {
    model_path: String,
    loaded: bool,
}

/// The state of the on-device model, absent or complete.
pub struct Session {
    state: Option<ModelState>,
}

impl View for Session {
    type V = SessionModel;

    closed spec fn view(&self) -> SessionModel {
        match self.state {
            Some(st) => Some((st.model_path@, st.loaded)),
            None => None,
        }
    }
}

impl Session {
    /// A session with no model.
    pub fn new() -> (r: Session)
        ensures
            r@ == None::<(Seq<char>, bool)>,
    {
        Session { state: None }
    }

    /// Records the model at `path` as loaded when `found` says that a file
    /// exists there, and returns `found`; otherwise leaves the session as it
    /// was.
    pub fn initialize(&mut self, path: String, found: bool) -> (r: bool)
        ensures
            r == found,
            final(self)@ == initialized(old(self)@, path@, found),
    {
        if !found {
            return false;
        }
        self.state = Some(ModelState { model_path: path, loaded: true });
        true
    }

    /// Whether a model is recorded and loaded.
    pub fn is_ready(&self) -> (r: bool)
        ensures
            r == ready(self@),
    {
        match &self.state {
            Some(st) => st.loaded,
            None => false,
        }
    }

    /// The text unchanged without a session; with one, its rule-based
    /// cleanup.
    pub fn process(&self, text: &str) -> (r: String)
        ensures
            r@ == processed(self@, text@),
    {
        match &self.state {
            Some(_) => format_text_rule_based(text),
            None => text.to_string(),
        }
    }

    /// Forgets the model; a no-op without one.
    pub fn shutdown(&mut self)
        ensures
            final(self)@ == None::<(Seq<char>, bool)>,
    {
        self.state = None;
    }
}

/// Without a session, text passes through unchanged.
pub proof fn lemma_passthrough_without_session(text: Seq<char>)
    ensures
        processed(None, text) == text,
{
}

/// Initialising with an existing model file makes any session ready; the
/// empty session that shutdown leaves is not ready and passes text through.
pub proof fn lemma_lifecycle(v: SessionModel, path: Seq<char>, text: Seq<char>)
    ensures
        ready(initialized(v, path, true)),
        !ready(None),
        processed(None, text) == text,
{
}

/// Initialising with a missing model file changes nothing, readiness
/// included.
pub proof fn lemma_missing_model_keeps_state(v: SessionModel, path: Seq<char>)
    ensures
        initialized(v, path, false) == v,
        ready(initialized(v, path, false)) == ready(v),
{
}

} // verus!
