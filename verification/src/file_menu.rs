//! The status line of the file menu: at most one message, an error or a
//! success, is shown at a time.

use vstd::prelude::*;
use vstd::string::StringExecFns;

verus! {

/// State for tracking pending file operations.
pub struct FileMenuState {
    /// Error message to display, if any.
    pub error_message: Option<String>,
    /// Success message to display, if any.
    pub success_message: Option<String>,
}

impl Default for FileMenuState {
    fn default() -> (state: Self)
        ensures
            state.error_message is None,
            state.success_message is None,
    {
        FileMenuState { error_message: None, success_message: None }
    }
}

impl FileMenuState {
    /// Shows `message` as an error, in place of any success message.
    pub fn set_error_message(&mut self, message: &str)
        ensures
            final(self).error_message matches Some(text) && text@ == message@,
            final(self).success_message is None,
    {
        self.error_message = Some(String::from_str(message));
        self.success_message = None;
    }

    /// Shows `message` as a success, in place of any error message.
    pub fn set_success_message(&mut self, message: &str)
        ensures
            final(self).success_message matches Some(text) && text@ == message@,
            final(self).error_message is None,
    {
        self.success_message = Some(String::from_str(message));
        self.error_message = None;
    }
}

} // verus!
