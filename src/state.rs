use vstd::prelude::*;
use crate::context::Context;
use crate::location::Location;

verus! {

/// The state of the editor application: the editing session, and whether the
/// log panel is shown.
pub struct AppState {
    pub editor: Context,
    pub show_log: bool,
}

impl Default for AppState {
    /// An empty 50 by 50 session, with the log panel shown.
    fn default() -> (r: AppState)
        ensures
            r.editor.wf(),
            r.editor.text() == Seq::<char>::empty(),
            r.editor.cursor() == (Location { ln: 0, col: 0 }),
            r.editor.top() == 0,
            r.editor.left() == 0,
            r.editor.width() == 50,
            r.editor.height() == 50,
            r.show_log,
    {
        AppState { editor: Context::with_size(50, 50), show_log: true }
    }
}

} // verus!
