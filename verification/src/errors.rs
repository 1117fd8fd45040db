//! The ways in which an operation on the profiles can fail, each with the
//! message that is shown for it.

use crate::text::{join, joined};
use vstd::prelude::*;

verus! {

/// Why a configuration is refused.
#[derive(Debug)]
pub enum ValidationError {
    /// A profile's name is not a valid profile name.
    InvalidProfileName { profile: String },
    /// A variable's name is not a valid variable name.
    InvalidVariableName { profile: String, name: String },
    /// A variable has the name of a marker.
    ReservedVariableName { profile: String, name: String },
}

/// Why no switch to a profile was made.
#[derive(Debug)]
pub enum SwitchError {
    /// There is no profile of that name; `available` holds the names that
    /// there are, in ascending order.
    ProfileNotFound { profile: String, available: Vec<String> },
}

/// Why no profile was created.
#[derive(Debug)]
pub enum NewProfileError {
    /// There is a profile of that name already.
    AlreadyExists { profile: String },
    /// The name is not a valid profile name.
    InvalidName { profile: String },
}

/// Why no variable was added.
#[derive(Debug)]
pub enum AddVariableError {
    /// There is no profile of that name.
    ProfileNotFound { profile: String },
    /// The variable's name is not a valid variable name.
    InvalidName { name: String },
    /// The variable's name is the name of a marker.
    ReservedName { name: String },
}

/// The message for a profile name that is refused.
pub open spec fn invalid_profile_name_text(profile: Seq<char>) -> Seq<char> {
    "Invalid profile name: '"@ + profile
        + "'. Profile names must contain only alphanumeric characters, underscores, or dashes."@
}

fn invalid_profile_name_message(profile: &str) -> (message: String)
    ensures
        message@ == invalid_profile_name_text(profile@),
{
    let mut message = String::new();
    message.append("Invalid profile name: '");
    message.append(profile);
    message.append(
        "'. Profile names must contain only alphanumeric characters, underscores, or dashes.",
    );
    message
}

impl ValidationError {
    /// The message, as a sequence of characters.
    pub open spec fn text(&self) -> Seq<char> {
        match self {
            ValidationError::InvalidProfileName { profile } => invalid_profile_name_text(profile@),
            ValidationError::InvalidVariableName { profile, name } => {
                "Invalid environment variable name '"@ + name@ + "' in profile '"@ + profile@
                    + "'. Variable names must start with a letter or underscore and contain only letters, numbers, or underscores."@
            },
            ValidationError::ReservedVariableName { profile, name } => {
                "Reserved variable name '"@ + name@ + "' in profile '"@ + profile@
                    + "'. SETENV_VARS and SETENV_PROFILE are reserved for internal use."@
            },
        }
    }

    /// The message that is shown for the error.
    pub fn message(&self) -> (message: String)
        ensures
            message@ == self.text(),
    {
        match self {
            ValidationError::InvalidProfileName { profile } => invalid_profile_name_message(
                profile.as_str(),
            ),
            ValidationError::InvalidVariableName { profile, name } => {
                let mut message = String::new();
                message.append("Invalid environment variable name '");
                message.append(name.as_str());
                message.append("' in profile '");
                message.append(profile.as_str());
                message.append(
                    "'. Variable names must start with a letter or underscore and contain only letters, numbers, or underscores.",
                );
                message
            },
            ValidationError::ReservedVariableName { profile, name } => {
                let mut message = String::new();
                message.append("Reserved variable name '");
                message.append(name.as_str());
                message.append("' in profile '");
                message.append(profile.as_str());
                message.append("'. SETENV_VARS and SETENV_PROFILE are reserved for internal use.");
                message
            },
        }
    }
}

impl SwitchError {
    /// The message, as a sequence of characters.
    pub open spec fn text(&self) -> Seq<char> {
        match self {
            SwitchError::ProfileNotFound { profile, available } => {
                "Profile '"@ + profile@ + "' not found. Available profiles: "@ + joined(
                    available.deep_view(),
                    ", "@,
                )
            },
        }
    }

    /// The message that is shown for the error.
    pub fn message(&self) -> (message: String)
        ensures
            message@ == self.text(),
    {
        match self {
            SwitchError::ProfileNotFound { profile, available } => {
                let mut message = String::new();
                message.append("Profile '");
                message.append(profile.as_str());
                message.append("' not found. Available profiles: ");
                let list = join(available.as_slice(), ", ");
                message.append(list.as_str());
                message
            },
        }
    }
}

impl NewProfileError {
    /// The message, as a sequence of characters.
    pub open spec fn text(&self) -> Seq<char> {
        match self {
            NewProfileError::AlreadyExists { profile } => {
                "Profile '"@ + profile@
                    + "' already exists. Use 'setenv add' to add variables to it."@
            },
            NewProfileError::InvalidName { profile } => invalid_profile_name_text(profile@),
        }
    }

    /// The message that is shown for the error.
    pub fn message(&self) -> (message: String)
        ensures
            message@ == self.text(),
    {
        match self {
            NewProfileError::AlreadyExists { profile } => {
                let mut message = String::new();
                message.append("Profile '");
                message.append(profile.as_str());
                message.append("' already exists. Use 'setenv add' to add variables to it.");
                message
            },
            NewProfileError::InvalidName { profile } => invalid_profile_name_message(
                profile.as_str(),
            ),
        }
    }
}

impl AddVariableError {
    /// The message, as a sequence of characters.
    pub open spec fn text(&self) -> Seq<char> {
        match self {
            AddVariableError::ProfileNotFound { profile } => {
                "Profile '"@ + profile@ + "' not found. Create it first with: setenv new "@
                    + profile@
            },
            AddVariableError::InvalidName { name } => {
                "Invalid variable name '"@ + name@
                    + "'. Variable names must start with a letter or underscore and contain only letters, numbers, or underscores."@
            },
            AddVariableError::ReservedName { name } => {
                "Cannot use reserved variable name '"@ + name@ + "'"@
            },
        }
    }

    /// The message that is shown for the error.
    pub fn message(&self) -> (message: String)
        ensures
            message@ == self.text(),
    {
        match self {
            AddVariableError::ProfileNotFound { profile } => {
                let mut message = String::new();
                message.append("Profile '");
                message.append(profile.as_str());
                message.append("' not found. Create it first with: setenv new ");
                message.append(profile.as_str());
                message
            },
            AddVariableError::InvalidName { name } => {
                let mut message = String::new();
                message.append("Invalid variable name '");
                message.append(name.as_str());
                message.append(
                    "'. Variable names must start with a letter or underscore and contain only letters, numbers, or underscores.",
                );
                message
            },
            AddVariableError::ReservedName { name } => {
                let mut message = String::new();
                message.append("Cannot use reserved variable name '");
                message.append(name.as_str());
                message.append("'");
                message
            },
        }
    }
}

} // verus!
