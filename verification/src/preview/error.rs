//! Why there is no preview.
use vstd::prelude::*;

verus! {

/// Why there is no preview.
#[derive(Debug, Clone, Copy, PartialEq, Eq, Structural)]
pub enum PreviewError {
    /// The file may hold secrets.
    EnvFile,
    /// The target is no file, or a symbolic link.
    NotAFile,
    /// The line is more than a command with arguments.
    ShellSyntax,
    /// The line holds no command.
    NoCommand,
    /// The command is not one that is known to only read.
    OtherCommand,
}

/// What the user is told.
pub open spec fn preview_error_text(e: PreviewError) -> Seq<char> {
    match e {
        PreviewError::EnvFile => "preview disabled for .env files"@,
        PreviewError::NotAFile => "preview target is not a regular non-symlink file"@,
        PreviewError::ShellSyntax => "command preview contains unsupported shell syntax"@,
        PreviewError::NoCommand => "command preview is empty"@,
        PreviewError::OtherCommand => "command preview only supports ls, gls, and eza"@,
    }
}

impl PreviewError {
    /// What the user is told.
    pub fn message(&self) -> (r: String)
        ensures
            r@ == preview_error_text(*self),
    {
        match self {
            PreviewError::EnvFile => "preview disabled for .env files".to_string(),
            PreviewError::NotAFile => {
                "preview target is not a regular non-symlink file".to_string()
            },
            PreviewError::ShellSyntax => {
                "command preview contains unsupported shell syntax".to_string()
            },
            PreviewError::NoCommand => "command preview is empty".to_string(),
            PreviewError::OtherCommand => {
                "command preview only supports ls, gls, and eza".to_string()
            },
        }
    }
}

} // verus!
