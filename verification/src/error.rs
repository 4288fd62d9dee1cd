//! The error type that the library's fallible functions return.
use vstd::prelude::*;

verus! {

/// Why an operation of the widget failed.
#[derive(Debug, Clone, PartialEq, Eq)]
pub enum AppError {
    /// A failure described for the user.
    Message(String),
    /// The widget has no configuration yet.
    NotConfigured,
}

/// What an [`AppError`] holds, as plain values.
pub enum AppErrorView {
    Message(Seq<char>),
    NotConfigured,
}

impl View for AppError {
    type V = AppErrorView;

    open spec fn view(&self) -> AppErrorView {
        match self {
            AppError::Message(m) => AppErrorView::Message(m@),
            AppError::NotConfigured => AppErrorView::NotConfigured,
        }
    }
}

impl AppError {
    /// The text shown to the user for this error.
    pub fn message(&self) -> (s: String)
        ensures
            match self {
                AppError::Message(m) => s@ == m@,
                AppError::NotConfigured => s@ == "StatTracker is not configured yet."@,
            },
    {
        match self {
            AppError::Message(m) => m.clone(),
            AppError::NotConfigured => "StatTracker is not configured yet.".to_owned(),
        }
    }
}

} // verus!
