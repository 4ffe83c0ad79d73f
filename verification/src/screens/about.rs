use vstd::prelude::*;

verus! {

/// The pages of the about dialog.
#[derive(Clone, Copy, Debug, PartialEq, Eq, Structural)]
pub enum Page {
    General,
    Controls,
}

impl Page {
    /// Every page, in the order the dialog lists them.
    pub fn all() -> (r: [Page; 2])
        ensures
            r@ == seq![Page::General, Page::Controls],
    {
        let r = [Page::General, Page::Controls];
        assert(r@ =~= seq![Page::General, Page::Controls]);
        r
    }

    /// The page's title.
    pub fn name(&self) -> (r: &'static str)
        ensures
            r@ == match *self {
                Page::General => "General"@,
                Page::Controls => "Controls"@,
            },
    {
        match self {
            Page::General => "General",
            Page::Controls => "Controls",
        }
    }
}

} // verus!
