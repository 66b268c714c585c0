//! The engine's side of Settings: when the engine asks for the Settings
//! window, the handler that opens it is called.
use vstd::prelude::*;

verus! {

/// Opens the Settings window; the engine's host implements it.
pub trait SettingsHandler {
    /// The handler was asked to show the window and answered `r`. This is a
    /// name for proofs only: compiled code never calls it, and an
    /// implementation outside verified code returns `true`.
    spec fn showed(&self, r: Result<(), String>) -> bool;

    fn show_settings(&self) -> (r: Result<(), String>)
        ensures
            self.showed(r),
    ;
}

/// Handles the engine events that ask for the Settings window.
pub struct SettingsExecutor<'a, H: SettingsHandler + ?Sized> {
    handler: &'a H,
}

impl<'a, H: SettingsHandler + ?Sized> SettingsExecutor<'a, H> {
    pub fn new(handler: &'a H) -> (e: Self)
        ensures
            e.handler() == handler,
    {
        SettingsExecutor { handler }
    }

    pub closed spec fn handler(&self) -> &'a H {
        self.handler
    }

    /// Takes an event that asks to show Settings by calling the handler and
    /// reports it as handled, whatever the handler said; any other event is
    /// left to other executors.
    pub fn execute(&self, shows_settings: bool) -> (handled: bool)
        ensures
            handled == shows_settings,
            shows_settings ==> exists|r: Result<(), String>| #[trigger] self.handler().showed(r),
    {
        if shows_settings {
            let answer = self.handler.show_settings();
            proof {
                assert(self.handler().showed(answer));
            }
            true
        } else {
            false
        }
    }
}

} // verus!
