//! What is remembered of a character between runs of the daemon.
use crate::text::path::{join_path, path_below};
use vstd::prelude::*;

verus! {

broadcast use vstd::string::group_string_axioms;

/// The file that the state is stored in.
pub const RUNTIME_STATE_FILE: &'static str = "runtime_state.json";

/// What is remembered of a character.
#[derive(Debug)]
pub struct CharacterRuntimeState {
    /// The model it uses.
    pub active_model: Option<String>,
}

impl Default for CharacterRuntimeState {
    fn default() -> (r: CharacterRuntimeState)
        ensures
            r.active_model is None,
    {
        CharacterRuntimeState { active_model: None }
    }
}

/// The file of a character's state.
pub fn character_runtime_state_path(character_data_dir: &str) -> (r: String)
    ensures
        r@ == path_below(character_data_dir@, RUNTIME_STATE_FILE@),
{
    join_path(character_data_dir, RUNTIME_STATE_FILE)
}

/// The model that is remembered where `stored` is what was stored: none where nothing was.
pub open spec fn remembered_model(stored: Option<CharacterRuntimeState>) -> Option<String> {
    match stored {
        Some(s) => s.active_model,
        None => None,
    }
}

/// The state of a character: what was stored, and nothing where nothing was.
pub fn load_character_runtime_state(stored: Option<CharacterRuntimeState>) -> (r:
    CharacterRuntimeState)
    ensures
        r.active_model == remembered_model(stored),
{
    match stored {
        Some(s) => s,
        None => CharacterRuntimeState::default(),
    }
}

/// The model that a character uses, where `state` is what came of loading its state: none where it could
/// not be loaded.
pub open spec fn model_in_use(state: Result<CharacterRuntimeState, String>) -> Option<String> {
    match state {
        Ok(s) => s.active_model,
        Err(_) => None,
    }
}

/// The model that a character uses, where its state could be loaded.
pub fn load_active_model(state: Result<CharacterRuntimeState, String>) -> (r: Option<String>)
    ensures
        r == model_in_use(state),
{
    match state {
        Ok(s) => s.active_model,
        Err(_) => None,
    }
}

/// The state that is stored for the model that a character uses.
pub fn save_active_model(active_model: Option<String>) -> (r: CharacterRuntimeState)
    ensures
        r.active_model == active_model,
{
    CharacterRuntimeState { active_model }
}

/// The model that was saved last is the one that is loaded, also where none was saved after an earlier
/// one; and none is loaded where nothing was stored or the state could not be loaded.
pub proof fn saved_models_are_loaded(
    saved: CharacterRuntimeState,
    loaded: CharacterRuntimeState,
    fresh: CharacterRuntimeState,
    active_model: Option<String>,
    error: String,
)
    requires
        saved.active_model == active_model,
        loaded.active_model == remembered_model(Some(saved)),
        fresh.active_model == remembered_model(None),
    ensures
        model_in_use(Ok(loaded)) == active_model,
        model_in_use(Ok(fresh)) is None,
        model_in_use(Err(error)) is None,
{
}

}
