//! The settings of the note store.

use vstd::prelude::*;

verus! {

/// The settings as they are read: each may be missing.
#[derive(Debug, PartialEq)]
pub struct ConfigProto {
    pub thoughts_path: Option<String>,
    pub temp_file_path: Option<String>,
    pub editor_command: Option<String>,
    pub reactive: Option<bool>,
    pub min_width: Option<u16>,
    pub min_height: Option<u16>,
    pub react_width: Option<u16>,
}

/// The settings in force.
#[derive(Debug, PartialEq)]
pub struct Config {
    pub thoughts_path: String,
    pub temp_file_path: String,
    pub editor_command: String,
    pub reactive: bool,
    pub min_width: u16,
    pub min_height: u16,
    pub react_width: u16,
}

/// Why the settings are not usable.
#[derive(Debug, PartialEq)]
pub enum ConfigError {
    /// No directory for the notes was given.
    MissingThoughtsPath,
    /// No editor command was given.
    MissingEditorCommand,
    /// No temporary file was given.
    MissingTempFilePath,
    /// A path could not be expanded; the text says why.
    Expansion(String),
}

/// Calls `shellexpand::full`, which replaces a leading tilde by the home
/// directory and variables by their values in the environment. Nothing is
/// claimed about the result: it depends on the environment of the process.
#[verifier::external_body]
fn expand(path: &str) -> (r: Result<String, String>) {
    match shellexpand::full(path) {
        Ok(expanded) => Ok(expanded.into_owned()),
        Err(e) => Err(e.to_string()),
    }
}

impl ConfigProto {
    /// The settings that hold where nothing else is given. `temp_file_path`
    /// is the temporary file of the platform, where it has one.
    pub fn with_defaults(temp_file_path: Option<String>) -> (r: ConfigProto)
        ensures
            r.thoughts_path is None,
            r.temp_file_path == temp_file_path,
            r.editor_command is None,
            r.reactive == Some(true),
            r.min_width == Some(58u16),
            r.min_height == Some(18u16),
            r.react_width == Some(80u16),
    {
        ConfigProto {
            thoughts_path: None,
            temp_file_path,
            editor_command: None,
            reactive: Some(true),
            min_width: Some(58),
            min_height: Some(18),
            react_width: Some(80),
        }
    }

    /// Whether the settings that always have a default are all there.
    pub open spec fn has_defaults(&self) -> bool {
        self.reactive is Some && self.min_width is Some && self.min_height is Some
            && self.react_width is Some
    }
}

impl Config {
    /// The file that holds the settings: the one that the environment names,
    /// else the default of the platform.
    pub fn get_path(from_environment: Option<String>, platform_default: String) -> (r: String)
        ensures
            r == match from_environment {
                Some(path) => path,
                None => platform_default,
            },
    {
        match from_environment {
            Some(path) => path,
            None => platform_default,
        }
    }

    /// The settings in force, given what expanding the two paths gave. A
    /// path that is missing is reported before one that failed to expand,
    /// and the directory of the notes comes first, then the editor command,
    /// then the temporary file.
    pub fn assemble(
        proto: ConfigProto,
        thoughts_path: Result<String, String>,
        temp_file_path: Result<String, String>,
    ) -> (r: Result<Config, ConfigError>)
        requires
            proto.has_defaults(),
        ensures
            r == assembled(proto, thoughts_path, temp_file_path),
    {
        if proto.thoughts_path.is_none() {
            return Err(ConfigError::MissingThoughtsPath);
        }
        let thoughts = match thoughts_path {
            Ok(path) => path,
            Err(cause) => {
                return Err(ConfigError::Expansion(cause));
            },
        };
        let editor_command = match proto.editor_command {
            Some(command) => command,
            None => {
                return Err(ConfigError::MissingEditorCommand);
            },
        };
        if proto.temp_file_path.is_none() {
            return Err(ConfigError::MissingTempFilePath);
        }
        let temp = match temp_file_path {
            Ok(path) => path,
            Err(cause) => {
                return Err(ConfigError::Expansion(cause));
            },
        };
        Ok(
            Config {
                thoughts_path: thoughts,
                temp_file_path: temp,
                editor_command,
                reactive: proto.reactive.unwrap(),
                min_width: proto.min_width.unwrap(),
                min_height: proto.min_height.unwrap(),
                react_width: proto.react_width.unwrap(),
            },
        )
    }

    /// Expands the two paths of the settings and puts the settings in force.
    /// A setting that is missing is an error whatever the environment holds.
    pub fn read(proto: ConfigProto) -> (r: Result<Config, ConfigError>)
        requires
            proto.has_defaults(),
        ensures
            exists|thoughts: Result<String, String>, temp: Result<String, String>|
                r == assembled(proto, thoughts, temp),
    {
        let thoughts = match &proto.thoughts_path {
            Some(path) => expand(path.as_str()),
            None => Ok(String::new()),
        };
        let temp = match &proto.temp_file_path {
            Some(path) => expand(path.as_str()),
            None => Ok(String::new()),
        };
        let r = Config::assemble(proto, thoughts, temp);
        proof {
            assert(r == assembled(proto, thoughts, temp));
        }
        r
    }
}

/// What `assemble` gives for the settings read and the two expanded paths.
pub open spec fn assembled(
    proto: ConfigProto,
    thoughts_path: Result<String, String>,
    temp_file_path: Result<String, String>,
) -> Result<Config, ConfigError> {
    if proto.thoughts_path is None {
        Err(ConfigError::MissingThoughtsPath)
    } else if thoughts_path is Err {
        Err(ConfigError::Expansion(thoughts_path->Err_0))
    } else if proto.editor_command is None {
        Err(ConfigError::MissingEditorCommand)
    } else if proto.temp_file_path is None {
        Err(ConfigError::MissingTempFilePath)
    } else if temp_file_path is Err {
        Err(ConfigError::Expansion(temp_file_path->Err_0))
    } else {
        Ok(
            Config {
                thoughts_path: thoughts_path->Ok_0,
                temp_file_path: temp_file_path->Ok_0,
                editor_command: proto.editor_command->0,
                reactive: proto.reactive->0,
                min_width: proto.min_width->0,
                min_height: proto.min_height->0,
                react_width: proto.react_width->0,
            },
        )
    }
}

} // verus!
