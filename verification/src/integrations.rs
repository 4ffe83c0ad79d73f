use vstd::prelude::*;

verus! {

/// What the player is doing, as shown to their friends.
pub enum RichPresence {
    Nothing,
    Sandbox,
    /// Playing the campaign level of that name.
    Campaign(String),
}

impl RichPresence {
    /// The localization token of the status line, if any is shown.
    pub fn steam_display(&self) -> (r: Option<&'static str>)
        ensures
            match *self {
                RichPresence::Nothing => r is None,
                RichPresence::Sandbox => r matches Some(s) && s@ == "#Status_Sandbox"@,
                RichPresence::Campaign(_) => r matches Some(s) && s@ == "#Status_Campaign"@,
            },
    {
        match self {
            RichPresence::Nothing => None,
            RichPresence::Sandbox => Some("#Status_Sandbox"),
            RichPresence::Campaign(_) => Some("#Status_Campaign"),
        }
    }
}

} // verus!
