//! The settings of the middleware and the values they have unless the user
//! says otherwise.
//!
//! Reading the settings from a file is not done here. This module holds the
//! settings as plain values, decides in which order the places of a
//! configuration file are tried, and names the errors of loading one.

use vstd::prelude::*;
use crate::publisher::UnableToDeliverStrategy;
use iceoryx2_bb_elementary::CallbackProgression;

verus! {

/// Whether an iteration goes on, as `iceoryx2_bb_elementary` names it.
#[verifier::external_type_specification]
pub struct ExCallbackProgression(CallbackProgression);

/// Why a configuration could not be loaded from a file.
#[derive(Debug, Clone, Copy, Eq, Hash, PartialEq, Structural)]
pub enum ConfigCreationError {
    /// The file could not be read.
    FailedToReadConfigFileContents,
    /// The contents of the file are no valid configuration.
    UnableToDeserializeContents,
    /// The process may not open the file.
    InsufficientPermissions,
    /// There is no such file.
    ConfigFileDoesNotExist,
    /// The file could not be opened for another reason.
    UnableToOpenConfigFile,
}

/// Why the places of the configuration file could not all be tried.
#[derive(Debug, Clone, Copy, Eq, Hash, PartialEq, Structural)]
pub enum ConfigIterationFailure {
    UnableToAcquireCurrentUserDetails,
    TooLongUserConfigDirectory,
}

/// Why a file could not be opened.
#[derive(Debug, Clone, Copy, Eq, Hash, PartialEq, Structural)]
pub enum FileOpenFailure {
    InsufficientPermissions,
    FileDoesNotExist,
    Other,
}

/// The places where a configuration file is looked for, in the order in
/// which they are tried.
#[derive(Debug, Clone, Copy, Eq, Hash, PartialEq, Structural)]
pub enum ConfigFileLocation {
    /// `config/iceoryx2.toml` below the working directory.
    ProjectLocal,
    /// `iceoryx2/iceoryx2.toml` below the configuration directory of the
    /// user.
    User,
    /// `iceoryx2/iceoryx2.toml` below the configuration directory of the
    /// system.
    Global,
}

/// The settings of the services.
#[derive(Debug, Clone)]
pub struct Service {
    /// The directory of the service files, below the root path.
    pub directory: String,
    pub publisher_data_segment_suffix: String,
    pub static_config_storage_suffix: String,
    pub dynamic_config_storage_suffix: String,
    /// How long a process waits for another to finish creating a service,
    /// in milliseconds.
    pub creation_timeout_ms: u64,
    pub connection_suffix: String,
    pub event_connection_suffix: String,
}

/// The settings of the nodes.
#[derive(Debug, Clone)]
pub struct Node {
    /// The directory of the node files, below the root path.
    pub directory: String,
    pub monitor_suffix: String,
    pub static_config_suffix: String,
    pub service_tag_suffix: String,
    pub cleanup_dead_nodes_on_creation: bool,
    pub cleanup_dead_nodes_on_destruction: bool,
}

/// The settings that all processes of one instance have to agree on.
#[derive(Debug, Clone)]
pub struct Global {
    pub root_path_unix: String,
    pub root_path_windows: String,
    /// Prefix of every file that is created at runtime.
    pub prefix: String,
    pub service: Service,
    pub node: Node,
}

impl Global {
    /// The path below which all files and directories are created.
    pub open spec fn spec_root_path(&self) -> Seq<char> {
        self.root_path_unix@
    }

    pub open spec fn spec_root_path_windows(&self) -> Seq<char> {
        self.root_path_windows@
    }

    /// The path below which all files and directories are created.
    pub fn root_path(&self) -> (path: &String)
        ensures
            path@ == self.spec_root_path(),
    {
        &self.root_path_unix
    }

    /// Sets the path below which all files and directories are created.
    pub fn set_root_path(&mut self, value: &String)
        ensures
            final(self).spec_root_path() == value@,
            final(self).spec_root_path_windows() == old(self).spec_root_path_windows(),
            final(self).prefix == old(self).prefix,
            final(self).service == old(self).service,
            final(self).node == old(self).node,
    {
        self.root_path_unix = value.clone();
    }
}

/// The settings of publish-subscribe services that the user has not
/// chosen.
#[derive(Debug, Clone, Copy, PartialEq, Eq, Structural)]
pub struct PublishSubscribe {
    pub max_subscribers: usize,
    pub max_publishers: usize,
    pub max_nodes: usize,
    pub subscriber_max_buffer_size: usize,
    pub subscriber_max_borrowed_samples: usize,
    pub publisher_max_loaned_samples: usize,
    pub publisher_history_size: usize,
    pub enable_safe_overflow: bool,
    pub unable_to_deliver_strategy: UnableToDeliverStrategy,
    pub subscriber_expired_connection_buffer: usize,
}

/// The settings of event services that the user has not chosen.
#[derive(Debug, Clone, Copy, PartialEq, Eq)]
pub struct Event {
    pub max_listeners: usize,
    pub max_notifiers: usize,
    pub max_nodes: usize,
    pub event_id_max_value: usize,
    /// Greatest time between two notifications, in milliseconds.
    pub deadline_ms: Option<u64>,
    pub notifier_created_event: Option<usize>,
    pub notifier_dropped_event: Option<usize>,
    pub notifier_dead_event: Option<usize>,
}

/// The settings of request-response services that the user has not
/// chosen.
#[derive(Debug, Clone, Copy, PartialEq, Eq, Structural)]
pub struct RequestResonse {
    pub enable_safe_overflow_for_requests: bool,
    pub enable_safe_overflow_for_responses: bool,
    pub max_active_responses: usize,
    pub max_active_requests: usize,
    pub max_borrowed_responses: usize,
    pub max_borrowed_requests: usize,
    pub max_response_buffer_size: usize,
    pub max_request_buffer_size: usize,
    pub max_servers: usize,
    pub max_clients: usize,
    pub max_nodes: usize,
}

/// The settings that are used where the user has chosen nothing.
#[derive(Debug, Clone, Copy)]
pub struct Defaults {
    pub publish_subscribe: PublishSubscribe,
    pub event: Event,
    pub request_response: RequestResonse,
}

/// All settings.
#[derive(Debug, Clone)]
pub struct Config {
    pub global: Global,
    pub defaults: Defaults,
}

impl Default for Config {
    fn default() -> (config: Config)
        ensures
            config.global.spec_root_path() == "/tmp/iceoryx2/"@,
            config.global.spec_root_path_windows() == "c:\\Temp\\iceoryx2\\"@,
            config.global.prefix@ == "iox2_"@,
            config.global.service.directory@ == "services"@,
            config.global.service.publisher_data_segment_suffix@ == ".publisher_data"@,
            config.global.service.static_config_storage_suffix@ == ".service"@,
            config.global.service.dynamic_config_storage_suffix@ == ".dynamic"@,
            config.global.service.creation_timeout_ms == 500,
            config.global.service.connection_suffix@ == ".connection"@,
            config.global.service.event_connection_suffix@ == ".event"@,
            config.global.node.directory@ == "nodes"@,
            config.global.node.monitor_suffix@ == ".node_monitor"@,
            config.global.node.static_config_suffix@ == ".details"@,
            config.global.node.service_tag_suffix@ == ".service_tag"@,
            config.global.node.cleanup_dead_nodes_on_creation,
            config.global.node.cleanup_dead_nodes_on_destruction,
            config.defaults.request_response == (RequestResonse {
                enable_safe_overflow_for_requests: true,
                enable_safe_overflow_for_responses: true,
                max_active_responses: 4,
                max_active_requests: 2,
                max_borrowed_responses: 4,
                max_borrowed_requests: 2,
                max_response_buffer_size: 2,
                max_request_buffer_size: 4,
                max_servers: 2,
                max_clients: 8,
                max_nodes: 20,
            }),
            config.defaults.publish_subscribe == (PublishSubscribe {
                max_subscribers: 8,
                max_publishers: 2,
                max_nodes: 20,
                publisher_history_size: 0,
                subscriber_max_buffer_size: 2,
                subscriber_max_borrowed_samples: 2,
                publisher_max_loaned_samples: 2,
                enable_safe_overflow: true,
                unable_to_deliver_strategy: UnableToDeliverStrategy::Block,
                subscriber_expired_connection_buffer: 128,
            }),
            config.defaults.event == (Event {
                max_listeners: 16,
                max_notifiers: 16,
                max_nodes: 36,
                event_id_max_value: 4294967295,
                deadline_ms: None,
                notifier_created_event: None,
                notifier_dropped_event: None,
                notifier_dead_event: None,
            }),
    {
        Config {
            global: Global {
                root_path_unix: "/tmp/iceoryx2/".to_owned(),
                root_path_windows: "c:\\Temp\\iceoryx2\\".to_owned(),
                prefix: "iox2_".to_owned(),
                service: Service {
                    directory: "services".to_owned(),
                    publisher_data_segment_suffix: ".publisher_data".to_owned(),
                    static_config_storage_suffix: ".service".to_owned(),
                    dynamic_config_storage_suffix: ".dynamic".to_owned(),
                    creation_timeout_ms: 500,
                    connection_suffix: ".connection".to_owned(),
                    event_connection_suffix: ".event".to_owned(),
                },
                node: Node {
                    directory: "nodes".to_owned(),
                    monitor_suffix: ".node_monitor".to_owned(),
                    static_config_suffix: ".details".to_owned(),
                    service_tag_suffix: ".service_tag".to_owned(),
                    cleanup_dead_nodes_on_creation: true,
                    cleanup_dead_nodes_on_destruction: true,
                },
            },
            defaults: Defaults {
                request_response: RequestResonse {
                    enable_safe_overflow_for_requests: true,
                    enable_safe_overflow_for_responses: true,
                    max_active_responses: 4,
                    max_active_requests: 2,
                    max_borrowed_responses: 4,
                    max_borrowed_requests: 2,
                    max_response_buffer_size: 2,
                    max_request_buffer_size: 4,
                    max_servers: 2,
                    max_clients: 8,
                    max_nodes: 20,
                },
                publish_subscribe: PublishSubscribe {
                    max_subscribers: 8,
                    max_publishers: 2,
                    max_nodes: 20,
                    publisher_history_size: 0,
                    subscriber_max_buffer_size: 2,
                    subscriber_max_borrowed_samples: 2,
                    publisher_max_loaned_samples: 2,
                    enable_safe_overflow: true,
                    unable_to_deliver_strategy: UnableToDeliverStrategy::Block,
                    subscriber_expired_connection_buffer: 128,
                },
                event: Event {
                    max_listeners: 16,
                    max_notifiers: 16,
                    max_nodes: 36,
                    event_id_max_value: 4294967295,
                    deadline_ms: None,
                    notifier_created_event: None,
                    notifier_dropped_event: None,
                    notifier_dead_event: None,
                },
            },
        }
    }
}

impl Config {
    /// The name of the configuration file.
    pub fn default_config_file_name() -> (name: String)
        ensures
            name@ == "iceoryx2.toml"@,
    {
        "iceoryx2.toml".to_owned()
    }

    /// The directory of the configuration file below the working
    /// directory.
    pub fn relative_local_config_path() -> (path: String)
        ensures
            path@ == "config"@,
    {
        "config".to_owned()
    }

    /// The directory of the configuration file below a configuration
    /// directory of the user or of the system.
    pub fn relative_config_path() -> (path: String)
        ensures
            path@ == "iceoryx2"@,
    {
        "iceoryx2".to_owned()
    }

    /// The place of the configuration file that is tried after `tried`
    /// places have been tried, if there is another.
    pub open spec fn spec_iterate_over_config_files(tried: usize) -> Option<ConfigFileLocation> {
        if tried == 0 {
            Some(ConfigFileLocation::ProjectLocal)
        } else if tried == 1 {
            Some(ConfigFileLocation::User)
        } else if tried == 2 {
            Some(ConfigFileLocation::Global)
        } else {
            None
        }
    }

    /// Names the next place where the configuration file is looked for:
    /// first the project, then the user, then the system.
    pub fn iterate_over_config_files(tried: usize) -> (location: Option<ConfigFileLocation>)
        ensures
            location == Self::spec_iterate_over_config_files(tried),
    {
        if tried == 0 {
            Some(ConfigFileLocation::ProjectLocal)
        } else if tried == 1 {
            Some(ConfigFileLocation::User)
        } else if tried == 2 {
            Some(ConfigFileLocation::Global)
        } else {
            None
        }
    }

    /// Names the error of loading a configuration whose file could not be
    /// opened.
    pub fn from_file(failure: FileOpenFailure) -> (error: ConfigCreationError)
        ensures
            error == match failure {
                FileOpenFailure::InsufficientPermissions => ConfigCreationError::InsufficientPermissions,
                FileOpenFailure::FileDoesNotExist => ConfigCreationError::ConfigFileDoesNotExist,
                FileOpenFailure::Other => ConfigCreationError::UnableToOpenConfigFile,
            },
    {
        match failure {
            FileOpenFailure::InsufficientPermissions => ConfigCreationError::InsufficientPermissions,
            FileOpenFailure::FileDoesNotExist => ConfigCreationError::ConfigFileDoesNotExist,
            FileOpenFailure::Other => ConfigCreationError::UnableToOpenConfigFile,
        }
    }

    /// Whether the search for a configuration file goes on after one place
    /// was tried with the outcome `loaded`: it ends at the first file that
    /// is loaded, and goes on past a place without a file. `None` stands
    /// for a file that exists and cannot be loaded, which ends the search
    /// and the process.
    pub fn global_config(loaded: Result<(), ConfigCreationError>) -> (progression: Option<CallbackProgression>)
        ensures
            progression == match loaded {
                Ok(()) => Some(CallbackProgression::Stop),
                Err(ConfigCreationError::ConfigFileDoesNotExist) => Some(CallbackProgression::Continue),
                Err(_) => None::<CallbackProgression>,
            },
    {
        match loaded {
            Ok(()) => Some(CallbackProgression::Stop),
            Err(ConfigCreationError::ConfigFileDoesNotExist) => Some(CallbackProgression::Continue),
            Err(_) => None,
        }
    }
}

} // verus!
