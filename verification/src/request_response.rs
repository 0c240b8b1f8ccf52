//! Opening and creating services of the request-response pattern.
//!
//! What is stored about a service and how it is found is not decided here.
//! This module decides what the settings of a new service are, whether an
//! existing service satisfies what a port asks of it, and how the outcomes
//! of looking up, opening and creating the stored parts of a service turn
//! into the result that the user sees.

use vstd::prelude::*;
use crate::dynamic_storage::{DynamicStorageCreateError, DynamicStorageOpenError};
use crate::message_type_details::MessageTypeDetails;
use iceoryx2_bb_elementary::alignment::Alignment;

verus! {

/// How often opening or creating a service is tried anew when another
/// process creates and removes it at the same time.
pub const RETRY_LIMIT: usize = 5;

/// How often opening the dynamic part of a service is tried anew.
pub const OPEN_RETRY_LIMIT: usize = 5;

/// An alignment of `iceoryx2_bb_elementary`, carried through unread.
#[verifier::external_type_specification]
#[verifier::external_body]
pub struct ExAlignment(Alignment);

/// The number of bytes that an alignment stands for.
pub uninterp spec fn alignment_value(alignment: Alignment) -> usize;

/// `Alignment::value` hands out the number that the alignment holds.
pub assume_specification[ Alignment::value ](alignment: &Alignment) -> (value: usize)
    ensures
        value == alignment_value(*alignment),
;

/// Why an existing request-response service could not be opened.
#[derive(Debug, Clone, Copy, PartialEq, Eq, Structural, Hash)]
pub enum RequestResponseOpenError {
    DoesNotExist,
    DoesNotSupportRequestedAmountOfActiveResponses,
    DoesNotSupportRequestedAmountOfActiveRequests,
    DoesNotSupportRequestedAmountOfBorrowedResponses,
    DoesNotSupportRequestedAmountOfBorrowedRequests,
    DoesNotSupportRequestedResponseBufferSize,
    DoesNotSupportRequestedRequestBufferSize,
    DoesNotSupportRequestedAmountOfServers,
    DoesNotSupportRequestedAmountOfClients,
    DoesNotSupportRequestedAmountOfNodes,
    ExceedsMaxNumberOfNodes,
    HangsInCreation,
    IncompatibleRequestType,
    IncompatibleResponseType,
    IncompatibleAttributes,
    IncompatibleMessagingPattern,
    IncompatibleOverflowBehaviorForRequests,
    IncompatibleOverflowBehaviorForResponses,
    InsufficientPermissions,
    InternalFailure,
    IsMarkedForDestruction,
    ServiceInCorruptedState,
}

/// Why a request-response service could not be created.
#[derive(Debug, Clone, Copy, PartialEq, Eq, Structural, Hash)]
pub enum RequestResponseCreateError {
    AlreadyExists,
    InternalFailure,
    IsBeingCreatedByAnotherInstance,
    InsufficientPermissions,
    HangsInCreation,
    ServiceInCorruptedState,
}

/// Why a request-response service could neither be opened nor created.
#[derive(Debug, PartialEq, Eq, Structural, Copy, Clone)]
pub enum RequestResponseOpenOrCreateError {
    RequestResponseOpenError(RequestResponseOpenError),
    RequestResponseCreateError(RequestResponseCreateError),
    /// Another process creates and removes the service again and again.
    SystemInFlux,
}

/// What looking up a service can find wrong with it.
#[derive(Debug, Clone, Copy, Eq, Hash, PartialEq, Structural)]
pub enum ServiceState {
    IncompatibleMessagingPattern,
    InsufficientPermissions,
    HangsInCreation,
    Corrupted,
}

/// What looking up a request-response service can find wrong with it.
#[derive(Debug, Clone, Copy, Eq, Hash, PartialEq, Structural)]
pub enum ServiceAvailabilityState {
    ServiceState(ServiceState),
    IncompatibleRequestType,
    IncompatibleResponseType,
}

/// Why the static part of a service could not be created.
#[derive(Debug, Clone, Copy, Eq, Hash, PartialEq, Structural)]
pub enum StaticStorageCreateError {
    AlreadyExists,
    Creation,
    Write,
    InsufficientPermissions,
    InternalError,
}

/// Why the dynamic part of a service could not be opened.
#[derive(Debug, Clone, Copy, Eq, Hash, PartialEq, Structural)]
pub enum OpenDynamicStorageFailure {
    IsMarkedForDestruction,
    ExceedsMaxNumberOfNodes,
    DynamicStorageOpenError(DynamicStorageOpenError),
}

impl RequestResponseOpenError {
    pub open spec fn spec_from(value: ServiceAvailabilityState) -> RequestResponseOpenError {
        match value {
            ServiceAvailabilityState::IncompatibleRequestType => RequestResponseOpenError::IncompatibleRequestType,
            ServiceAvailabilityState::IncompatibleResponseType => RequestResponseOpenError::IncompatibleResponseType,
            ServiceAvailabilityState::ServiceState(
                ServiceState::IncompatibleMessagingPattern,
            ) => RequestResponseOpenError::IncompatibleMessagingPattern,
            ServiceAvailabilityState::ServiceState(
                ServiceState::InsufficientPermissions,
            ) => RequestResponseOpenError::InsufficientPermissions,
            ServiceAvailabilityState::ServiceState(
                ServiceState::HangsInCreation,
            ) => RequestResponseOpenError::HangsInCreation,
            ServiceAvailabilityState::ServiceState(
                ServiceState::Corrupted,
            ) => RequestResponseOpenError::ServiceInCorruptedState,
        }
    }
}

impl From<ServiceAvailabilityState> for RequestResponseOpenError {
    fn from(value: ServiceAvailabilityState) -> (error: RequestResponseOpenError) {
        match value {
            ServiceAvailabilityState::IncompatibleRequestType => RequestResponseOpenError::IncompatibleRequestType,
            ServiceAvailabilityState::IncompatibleResponseType => RequestResponseOpenError::IncompatibleResponseType,
            ServiceAvailabilityState::ServiceState(
                ServiceState::IncompatibleMessagingPattern,
            ) => RequestResponseOpenError::IncompatibleMessagingPattern,
            ServiceAvailabilityState::ServiceState(
                ServiceState::InsufficientPermissions,
            ) => RequestResponseOpenError::InsufficientPermissions,
            ServiceAvailabilityState::ServiceState(
                ServiceState::HangsInCreation,
            ) => RequestResponseOpenError::HangsInCreation,
            ServiceAvailabilityState::ServiceState(
                ServiceState::Corrupted,
            ) => RequestResponseOpenError::ServiceInCorruptedState,
        }
    }
}

impl vstd::std_specs::convert::FromSpecImpl<ServiceAvailabilityState> for RequestResponseOpenError {
    open spec fn obeys_from_spec() -> bool {
        true
    }

    open spec fn from_spec(value: ServiceAvailabilityState) -> RequestResponseOpenError {
        RequestResponseOpenError::spec_from(value)
    }
}

impl RequestResponseCreateError {
    pub open spec fn spec_from(value: ServiceAvailabilityState) -> RequestResponseCreateError {
        match value {
            ServiceAvailabilityState::IncompatibleRequestType
            | ServiceAvailabilityState::IncompatibleResponseType
            | ServiceAvailabilityState::ServiceState(
                ServiceState::IncompatibleMessagingPattern,
            ) => RequestResponseCreateError::AlreadyExists,
            ServiceAvailabilityState::ServiceState(
                ServiceState::InsufficientPermissions,
            ) => RequestResponseCreateError::InsufficientPermissions,
            ServiceAvailabilityState::ServiceState(
                ServiceState::HangsInCreation,
            ) => RequestResponseCreateError::HangsInCreation,
            ServiceAvailabilityState::ServiceState(
                ServiceState::Corrupted,
            ) => RequestResponseCreateError::ServiceInCorruptedState,
        }
    }
}

impl From<ServiceAvailabilityState> for RequestResponseCreateError {
    fn from(value: ServiceAvailabilityState) -> (error: RequestResponseCreateError) {
        match value {
            ServiceAvailabilityState::IncompatibleRequestType
            | ServiceAvailabilityState::IncompatibleResponseType
            | ServiceAvailabilityState::ServiceState(
                ServiceState::IncompatibleMessagingPattern,
            ) => RequestResponseCreateError::AlreadyExists,
            ServiceAvailabilityState::ServiceState(
                ServiceState::InsufficientPermissions,
            ) => RequestResponseCreateError::InsufficientPermissions,
            ServiceAvailabilityState::ServiceState(
                ServiceState::HangsInCreation,
            ) => RequestResponseCreateError::HangsInCreation,
            ServiceAvailabilityState::ServiceState(
                ServiceState::Corrupted,
            ) => RequestResponseCreateError::ServiceInCorruptedState,
        }
    }
}

impl vstd::std_specs::convert::FromSpecImpl<ServiceAvailabilityState> for RequestResponseCreateError {
    open spec fn obeys_from_spec() -> bool {
        true
    }

    open spec fn from_spec(value: ServiceAvailabilityState) -> RequestResponseCreateError {
        RequestResponseCreateError::spec_from(value)
    }
}

impl From<ServiceAvailabilityState> for RequestResponseOpenOrCreateError {
    fn from(value: ServiceAvailabilityState) -> (error: RequestResponseOpenOrCreateError) {
        RequestResponseOpenOrCreateError::RequestResponseOpenError(RequestResponseOpenError::from(value))
    }
}

impl vstd::std_specs::convert::FromSpecImpl<ServiceAvailabilityState> for RequestResponseOpenOrCreateError {
    open spec fn obeys_from_spec() -> bool {
        true
    }

    open spec fn from_spec(value: ServiceAvailabilityState) -> RequestResponseOpenOrCreateError {
        RequestResponseOpenOrCreateError::RequestResponseOpenError(RequestResponseOpenError::spec_from(value))
    }
}

impl From<RequestResponseOpenError> for RequestResponseOpenOrCreateError {
    fn from(value: RequestResponseOpenError) -> (error: RequestResponseOpenOrCreateError) {
        RequestResponseOpenOrCreateError::RequestResponseOpenError(value)
    }
}

impl vstd::std_specs::convert::FromSpecImpl<RequestResponseOpenError> for RequestResponseOpenOrCreateError {
    open spec fn obeys_from_spec() -> bool {
        true
    }

    open spec fn from_spec(value: RequestResponseOpenError) -> RequestResponseOpenOrCreateError {
        RequestResponseOpenOrCreateError::RequestResponseOpenError(value)
    }
}

impl From<RequestResponseCreateError> for RequestResponseOpenOrCreateError {
    fn from(value: RequestResponseCreateError) -> (error: RequestResponseOpenOrCreateError) {
        RequestResponseOpenOrCreateError::RequestResponseCreateError(value)
    }
}

impl vstd::std_specs::convert::FromSpecImpl<RequestResponseCreateError> for RequestResponseOpenOrCreateError {
    open spec fn obeys_from_spec() -> bool {
        true
    }

    open spec fn from_spec(value: RequestResponseCreateError) -> RequestResponseOpenOrCreateError {
        RequestResponseOpenOrCreateError::RequestResponseCreateError(value)
    }
}

/// The settings of a request-response service.
#[derive(Debug, Clone)]
pub struct StaticConfig {
    pub enable_safe_overflow_for_requests: bool,
    pub enable_safe_overflow_for_responses: bool,
    pub max_active_responses: usize,
    pub max_active_requests: usize,
    pub max_borrowed_responses: usize,
    pub max_borrowed_requests: usize,
    pub max_response_buffer_size: usize,
    pub max_request_buffer_size: usize,
    pub max_servers: usize,
    pub max_clients: usize,
    pub max_nodes: usize,
    pub request_message_type_details: MessageTypeDetails,
    pub response_message_type_details: MessageTypeDetails,
}

/// Raises a countable limit of zero to one.
pub fn meaningful(value: usize) -> (adjusted: usize)
    ensures
        adjusted == spec_meaningful(value),
{
    if value == 0 {
        1
    } else {
        value
    }
}

/// The limits of a request-response service, without the types.
pub struct Limits {
    pub enable_safe_overflow_for_requests: bool,
    pub enable_safe_overflow_for_responses: bool,
    pub max_active_responses: usize,
    pub max_active_requests: usize,
    pub max_borrowed_responses: usize,
    pub max_borrowed_requests: usize,
    pub max_response_buffer_size: usize,
    pub max_request_buffer_size: usize,
    pub max_servers: usize,
    pub max_clients: usize,
    pub max_nodes: usize,
}

impl StaticConfig {
    pub open spec fn spec_limits(&self) -> Limits {
        Limits {
            enable_safe_overflow_for_requests: self.enable_safe_overflow_for_requests,
            enable_safe_overflow_for_responses: self.enable_safe_overflow_for_responses,
            max_active_responses: self.max_active_responses,
            max_active_requests: self.max_active_requests,
            max_borrowed_responses: self.max_borrowed_responses,
            max_borrowed_requests: self.max_borrowed_requests,
            max_response_buffer_size: self.max_response_buffer_size,
            max_request_buffer_size: self.max_request_buffer_size,
            max_servers: self.max_servers,
            max_clients: self.max_clients,
            max_nodes: self.max_nodes,
        }
    }

    pub fn has_safe_overflow_for_requests(&self) -> (enabled: bool)
        ensures
            enabled == self.enable_safe_overflow_for_requests,
    {
        self.enable_safe_overflow_for_requests
    }

    pub fn has_safe_overflow_for_responses(&self) -> (enabled: bool)
        ensures
            enabled == self.enable_safe_overflow_for_responses,
    {
        self.enable_safe_overflow_for_responses
    }

    pub fn max_active_responses(&self) -> (value: usize)
        ensures
            value == self.max_active_responses,
    {
        self.max_active_responses
    }

    pub fn max_active_requests(&self) -> (value: usize)
        ensures
            value == self.max_active_requests,
    {
        self.max_active_requests
    }

    pub fn max_borrowed_responses(&self) -> (value: usize)
        ensures
            value == self.max_borrowed_responses,
    {
        self.max_borrowed_responses
    }

    pub fn max_borrowed_requests(&self) -> (value: usize)
        ensures
            value == self.max_borrowed_requests,
    {
        self.max_borrowed_requests
    }

    pub fn max_response_buffer_size(&self) -> (value: usize)
        ensures
            value == self.max_response_buffer_size,
    {
        self.max_response_buffer_size
    }

    pub fn max_request_buffer_size(&self) -> (value: usize)
        ensures
            value == self.max_request_buffer_size,
    {
        self.max_request_buffer_size
    }

    pub fn max_servers(&self) -> (value: usize)
        ensures
            value == self.max_servers,
    {
        self.max_servers
    }

    pub fn max_clients(&self) -> (value: usize)
        ensures
            value == self.max_clients,
    {
        self.max_clients
    }

    pub fn max_nodes(&self) -> (value: usize)
        ensures
            value == self.max_nodes,
    {
        self.max_nodes
    }
}

/// What is stored about the messaging pattern of a service.
#[derive(Debug, Clone)]
pub enum MessagingPatternConfig {
    RequestResponse(StaticConfig),
    PublishSubscribe(crate::publisher::StaticConfig),
    Event,
}

/// A countable limit as a service is created with: zero is not supported
/// and becomes one, the smallest supported value.
pub open spec fn spec_meaningful(value: usize) -> usize {
    if value == 0 {
        1
    } else {
        value
    }
}

impl Limits {
    /// The limits with every countable limit of zero raised to one.
    pub open spec fn spec_adjusted(self) -> Limits {
        Limits {
            max_active_responses: spec_meaningful(self.max_active_responses),
            max_active_requests: spec_meaningful(self.max_active_requests),
            max_borrowed_responses: spec_meaningful(self.max_borrowed_responses),
            max_borrowed_requests: spec_meaningful(self.max_borrowed_requests),
            max_response_buffer_size: spec_meaningful(self.max_response_buffer_size),
            max_request_buffer_size: spec_meaningful(self.max_request_buffer_size),
            max_servers: spec_meaningful(self.max_servers),
            max_clients: spec_meaningful(self.max_clients),
            max_nodes: spec_meaningful(self.max_nodes),
            ..self
        }
    }
}

/// Which settings of an existing service a builder insists on.
pub struct Requirements {
    pub enable_safe_overflow_for_requests: bool,
    pub enable_safe_overflow_for_responses: bool,
    pub max_active_responses: bool,
    pub max_active_requests: bool,
    pub max_borrowed_responses: bool,
    pub max_borrowed_requests: bool,
    pub max_response_buffer_size: bool,
    pub max_request_buffer_size: bool,
    pub max_servers: bool,
    pub max_clients: bool,
    pub max_nodes: bool,
}

/// The first thing, in the order in which they are compared, in which an
/// existing service falls short of what is required of it. The overflow
/// behaviour has to be the same; of everything that is counted the service
/// has to support at least as much as is required.
pub open spec fn spec_shortcoming(insists: Requirements, required: Limits, existing: Limits) -> Option<
    RequestResponseOpenError,
> {
    if insists.enable_safe_overflow_for_requests && existing.enable_safe_overflow_for_requests
        != required.enable_safe_overflow_for_requests {
        Some(RequestResponseOpenError::IncompatibleOverflowBehaviorForRequests)
    } else if insists.enable_safe_overflow_for_responses && existing.enable_safe_overflow_for_responses
        != required.enable_safe_overflow_for_responses {
        Some(RequestResponseOpenError::IncompatibleOverflowBehaviorForResponses)
    } else if insists.max_active_responses && existing.max_active_responses < required.max_active_responses {
        Some(RequestResponseOpenError::DoesNotSupportRequestedAmountOfActiveResponses)
    } else if insists.max_active_requests && existing.max_active_requests < required.max_active_requests {
        Some(RequestResponseOpenError::DoesNotSupportRequestedAmountOfActiveRequests)
    } else if insists.max_borrowed_responses && existing.max_borrowed_responses < required.max_borrowed_responses {
        Some(RequestResponseOpenError::DoesNotSupportRequestedAmountOfBorrowedResponses)
    } else if insists.max_borrowed_requests && existing.max_borrowed_requests < required.max_borrowed_requests {
        Some(RequestResponseOpenError::DoesNotSupportRequestedAmountOfBorrowedRequests)
    } else if insists.max_response_buffer_size && existing.max_response_buffer_size
        < required.max_response_buffer_size {
        Some(RequestResponseOpenError::DoesNotSupportRequestedResponseBufferSize)
    } else if insists.max_request_buffer_size && existing.max_request_buffer_size < required.max_request_buffer_size {
        Some(RequestResponseOpenError::DoesNotSupportRequestedRequestBufferSize)
    } else if insists.max_servers && existing.max_servers < required.max_servers {
        Some(RequestResponseOpenError::DoesNotSupportRequestedAmountOfServers)
    } else if insists.max_clients && existing.max_clients < required.max_clients {
        Some(RequestResponseOpenError::DoesNotSupportRequestedAmountOfClients)
    } else if insists.max_nodes && existing.max_nodes < required.max_nodes {
        Some(RequestResponseOpenError::DoesNotSupportRequestedAmountOfNodes)
    } else {
        None
    }
}

/// The types of a message with the alignment of the payload raised to
/// `alignment`, if that is stricter.
pub open spec fn spec_with_alignment(details: MessageTypeDetails, alignment: Option<usize>) -> MessageTypeDetails {
    match alignment {
        Some(a) => if a > details.payload.alignment {
            MessageTypeDetails {
                payload: crate::message_type_details::TypeDetail { alignment: a, ..details.payload },
                ..details
            }
        } else {
            details
        },
        None => details,
    }
}

/// Raises the alignment of the payload to `alignment`, if that is
/// stricter.
pub fn with_alignment(details: MessageTypeDetails, alignment: Option<usize>) -> (adjusted: MessageTypeDetails)
    ensures
        adjusted == spec_with_alignment(details, alignment),
{
    match alignment {
        Some(a) => if a > details.payload.alignment {
            let mut adjusted = details;
            adjusted.payload.alignment = a;
            adjusted
        } else {
            details
        },
        None => details,
    }
}

/// Collects what a port asks of a request-response service.
#[derive(Debug)]
pub struct Builder {
    service_config: StaticConfig,
    override_request_alignment: Option<usize>,
    override_response_alignment: Option<usize>,
    verify_enable_safe_overflow_for_requests: bool,
    verify_enable_safe_overflow_for_responses: bool,
    verify_max_active_responses: bool,
    verify_max_active_requests: bool,
    verify_max_borrowed_responses: bool,
    verify_max_borrowed_requests: bool,
    verify_max_response_buffer_size: bool,
    verify_max_request_buffer_size: bool,
    verify_max_servers: bool,
    verify_max_clients: bool,
    verify_max_nodes: bool,
}

/// What a builder has collected, as plain values.
pub struct BuilderState {
    pub limits: Limits,
    pub insists: Requirements,
    pub override_request_alignment: Option<usize>,
    pub override_response_alignment: Option<usize>,
}

impl Builder {
    pub closed spec fn view(&self) -> BuilderState {
        BuilderState {
            limits: self.service_config.spec_limits(),
            insists: Requirements {
                enable_safe_overflow_for_requests: self.verify_enable_safe_overflow_for_requests,
                enable_safe_overflow_for_responses: self.verify_enable_safe_overflow_for_responses,
                max_active_responses: self.verify_max_active_responses,
                max_active_requests: self.verify_max_active_requests,
                max_borrowed_responses: self.verify_max_borrowed_responses,
                max_borrowed_requests: self.verify_max_borrowed_requests,
                max_response_buffer_size: self.verify_max_response_buffer_size,
                max_request_buffer_size: self.verify_max_request_buffer_size,
                max_servers: self.verify_max_servers,
                max_clients: self.verify_max_clients,
                max_nodes: self.verify_max_nodes,
            },
            override_request_alignment: self.override_request_alignment,
            override_response_alignment: self.override_response_alignment,
        }
    }

    /// The types of the requests that the builder asks for.
    pub closed spec fn spec_request_type(&self) -> MessageTypeDetails {
        self.service_config.request_message_type_details
    }

    /// The types of the responses that the builder asks for.
    pub closed spec fn spec_response_type(&self) -> MessageTypeDetails {
        self.service_config.response_message_type_details
    }

    /// A builder that starts from the settings `defaults` and insists on
    /// nothing.
    pub fn new(defaults: StaticConfig) -> (builder: Builder)
        ensures
            builder@ == (BuilderState {
                limits: defaults.spec_limits(),
                insists: Requirements {
                    enable_safe_overflow_for_requests: false,
                    enable_safe_overflow_for_responses: false,
                    max_active_responses: false,
                    max_active_requests: false,
                    max_borrowed_responses: false,
                    max_borrowed_requests: false,
                    max_response_buffer_size: false,
                    max_request_buffer_size: false,
                    max_servers: false,
                    max_clients: false,
                    max_nodes: false,
                },
                override_request_alignment: None,
                override_response_alignment: None,
            }),
            builder.spec_request_type() == defaults.request_message_type_details,
            builder.spec_response_type() == defaults.response_message_type_details,
    {
        Builder {
            service_config: defaults,
            override_request_alignment: None,
            override_response_alignment: None,
            verify_enable_safe_overflow_for_requests: false,
            verify_enable_safe_overflow_for_responses: false,
            verify_max_active_responses: false,
            verify_max_active_requests: false,
            verify_max_borrowed_responses: false,
            verify_max_borrowed_requests: false,
            verify_max_response_buffer_size: false,
            verify_max_request_buffer_size: false,
            verify_max_servers: false,
            verify_max_clients: false,
            verify_max_nodes: false,
        }
    }

    /// The settings that the builder has collected.
    pub fn config_details(&self) -> (config: &StaticConfig)
        ensures
            config.spec_limits() == self@.limits,
            config.request_message_type_details == self.spec_request_type(),
            config.response_message_type_details == self.spec_response_type(),
    {
        &self.service_config
    }

    /// Asks for payloads of requests that are aligned at least this
    /// strictly.
    pub fn request_payload_alignment(self, alignment: Alignment) -> (builder: Builder)
        ensures
            builder@ == (BuilderState { override_request_alignment: Some(alignment_value(alignment)), ..self@ }),
            builder.spec_request_type() == self.spec_request_type(),
            builder.spec_response_type() == self.spec_response_type(),
    {
        let mut builder = self;
        builder.override_request_alignment = Some(alignment.value());
        builder
    }

    /// Asks for payloads of responses that are aligned at least this
    /// strictly.
    pub fn response_payload_alignment(self, alignment: Alignment) -> (builder: Builder)
        ensures
            builder@ == (BuilderState { override_response_alignment: Some(alignment_value(alignment)), ..self@ }),
            builder.spec_request_type() == self.spec_request_type(),
            builder.spec_response_type() == self.spec_response_type(),
    {
        let mut builder = self;
        builder.override_response_alignment = Some(alignment.value());
        builder
    }

    pub fn enable_safe_overflow_for_requests(self, value: bool) -> (builder: Builder)
        ensures
            builder@ == (BuilderState {
                limits: Limits { enable_safe_overflow_for_requests: value, ..self@.limits },
                insists: Requirements { enable_safe_overflow_for_requests: true, ..self@.insists },
                ..self@
            }),
            builder.spec_request_type() == self.spec_request_type(),
            builder.spec_response_type() == self.spec_response_type(),
    {
        let mut builder = self;
        builder.service_config.enable_safe_overflow_for_requests = value;
        builder.verify_enable_safe_overflow_for_requests = true;
        builder
    }

    pub fn enable_safe_overflow_for_responses(self, value: bool) -> (builder: Builder)
        ensures
            builder@ == (BuilderState {
                limits: Limits { enable_safe_overflow_for_responses: value, ..self@.limits },
                insists: Requirements { enable_safe_overflow_for_responses: true, ..self@.insists },
                ..self@
            }),
            builder.spec_request_type() == self.spec_request_type(),
            builder.spec_response_type() == self.spec_response_type(),
    {
        let mut builder = self;
        builder.service_config.enable_safe_overflow_for_responses = value;
        builder.verify_enable_safe_overflow_for_responses = true;
        builder
    }

    /// Number of responses a client can hold at once.
    pub fn max_active_responses(self, value: usize) -> (builder: Builder)
        ensures
            builder@ == (BuilderState {
                limits: Limits { max_active_responses: value, ..self@.limits },
                insists: Requirements { max_active_responses: true, ..self@.insists },
                ..self@
            }),
            builder.spec_request_type() == self.spec_request_type(),
            builder.spec_response_type() == self.spec_response_type(),
    {
        let mut builder = self;
        builder.service_config.max_active_responses = value;
        builder.verify_max_active_responses = true;
        builder
    }

    /// Number of requests a server can hold at once.
    pub fn max_active_requests(self, value: usize) -> (builder: Builder)
        ensures
            builder@ == (BuilderState {
                limits: Limits { max_active_requests: value, ..self@.limits },
                insists: Requirements { max_active_requests: true, ..self@.insists },
                ..self@
            }),
            builder.spec_request_type() == self.spec_request_type(),
            builder.spec_response_type() == self.spec_response_type(),
    {
        let mut builder = self;
        builder.service_config.max_active_requests = value;
        builder.verify_max_active_requests = true;
        builder
    }

    /// Number of samples a response can borrow at once.
    pub fn max_borrowed_responses(self, value: usize) -> (builder: Builder)
        ensures
            builder@ == (BuilderState {
                limits: Limits { max_borrowed_responses: value, ..self@.limits },
                insists: Requirements { max_borrowed_responses: true, ..self@.insists },
                ..self@
            }),
            builder.spec_request_type() == self.spec_request_type(),
            builder.spec_response_type() == self.spec_response_type(),
    {
        let mut builder = self;
        builder.service_config.max_borrowed_responses = value;
        builder.verify_max_borrowed_responses = true;
        builder
    }

    /// Number of samples a request can borrow at once.
    pub fn max_borrowed_requests(self, value: usize) -> (builder: Builder)
        ensures
            builder@ == (BuilderState {
                limits: Limits { max_borrowed_requests: value, ..self@.limits },
                insists: Requirements { max_borrowed_requests: true, ..self@.insists },
                ..self@
            }),
            builder.spec_request_type() == self.spec_request_type(),
            builder.spec_response_type() == self.spec_response_type(),
    {
        let mut builder = self;
        builder.service_config.max_borrowed_requests = value;
        builder.verify_max_borrowed_requests = true;
        builder
    }

    /// Number of responses that fit into the buffer of a client.
    pub fn max_response_buffer_size(self, value: usize) -> (builder: Builder)
        ensures
            builder@ == (BuilderState {
                limits: Limits { max_response_buffer_size: value, ..self@.limits },
                insists: Requirements { max_response_buffer_size: true, ..self@.insists },
                ..self@
            }),
            builder.spec_request_type() == self.spec_request_type(),
            builder.spec_response_type() == self.spec_response_type(),
    {
        let mut builder = self;
        builder.service_config.max_response_buffer_size = value;
        builder.verify_max_response_buffer_size = true;
        builder
    }

    /// Number of requests that fit into the buffer of a server.
    pub fn max_request_buffer_size(self, value: usize) -> (builder: Builder)
        ensures
            builder@ == (BuilderState {
                limits: Limits { max_request_buffer_size: value, ..self@.limits },
                insists: Requirements { max_request_buffer_size: true, ..self@.insists },
                ..self@
            }),
            builder.spec_request_type() == self.spec_request_type(),
            builder.spec_response_type() == self.spec_response_type(),
    {
        let mut builder = self;
        builder.service_config.max_request_buffer_size = value;
        builder.verify_max_request_buffer_size = true;
        builder
    }

    /// Number of servers the service supports.
    pub fn max_servers(self, value: usize) -> (builder: Builder)
        ensures
            builder@ == (BuilderState {
                limits: Limits { max_servers: value, ..self@.limits },
                insists: Requirements { max_servers: true, ..self@.insists },
                ..self@
            }),
            builder.spec_request_type() == self.spec_request_type(),
            builder.spec_response_type() == self.spec_response_type(),
    {
        let mut builder = self;
        builder.service_config.max_servers = value;
        builder.verify_max_servers = true;
        builder
    }

    /// Number of clients the service supports.
    pub fn max_clients(self, value: usize) -> (builder: Builder)
        ensures
            builder@ == (BuilderState {
                limits: Limits { max_clients: value, ..self@.limits },
                insists: Requirements { max_clients: true, ..self@.insists },
                ..self@
            }),
            builder.spec_request_type() == self.spec_request_type(),
            builder.spec_response_type() == self.spec_response_type(),
    {
        let mut builder = self;
        builder.service_config.max_clients = value;
        builder.verify_max_clients = true;
        builder
    }

    /// Number of nodes that can open the service at once.
    pub fn max_nodes(self, value: usize) -> (builder: Builder)
        ensures
            builder@ == (BuilderState {
                limits: Limits { max_nodes: value, ..self@.limits },
                insists: Requirements { max_nodes: true, ..self@.insists },
                ..self@
            }),
            builder.spec_request_type() == self.spec_request_type(),
            builder.spec_response_type() == self.spec_response_type(),
    {
        let mut builder = self;
        builder.service_config.max_nodes = value;
        builder.verify_max_nodes = true;
        builder
    }

    /// Raises every countable limit of zero to one, the smallest value a
    /// service supports.
    pub fn adjust_configuration_to_meaningful_values(&mut self)
        ensures
            final(self)@ == (BuilderState { limits: old(self)@.limits.spec_adjusted(), ..old(self)@ }),
            final(self).spec_request_type() == old(self).spec_request_type(),
            final(self).spec_response_type() == old(self).spec_response_type(),
    {
        self.service_config.max_request_buffer_size = meaningful(self.service_config.max_request_buffer_size);
        self.service_config.max_response_buffer_size = meaningful(self.service_config.max_response_buffer_size);
        self.service_config.max_active_requests = meaningful(self.service_config.max_active_requests);
        self.service_config.max_active_responses = meaningful(self.service_config.max_active_responses);
        self.service_config.max_borrowed_responses = meaningful(self.service_config.max_borrowed_responses);
        self.service_config.max_borrowed_requests = meaningful(self.service_config.max_borrowed_requests);
        self.service_config.max_servers = meaningful(self.service_config.max_servers);
        self.service_config.max_clients = meaningful(self.service_config.max_clients);
        self.service_config.max_nodes = meaningful(self.service_config.max_nodes);
    }

    /// The first thing in which the existing service falls short of what
    /// the builder insists on.
    fn shortcoming(&self, existing_configuration: &StaticConfig) -> (found: Option<RequestResponseOpenError>)
        ensures
            found == spec_shortcoming(self@.insists, self@.limits, existing_configuration.spec_limits()),
    {
        let required_configuration = &self.service_config;
        if self.verify_enable_safe_overflow_for_requests && existing_configuration.enable_safe_overflow_for_requests
            != required_configuration.enable_safe_overflow_for_requests {
            Some(RequestResponseOpenError::IncompatibleOverflowBehaviorForRequests)
        } else if self.verify_enable_safe_overflow_for_responses
            && existing_configuration.enable_safe_overflow_for_responses
            != required_configuration.enable_safe_overflow_for_responses {
            Some(RequestResponseOpenError::IncompatibleOverflowBehaviorForResponses)
        } else if self.verify_max_active_responses && existing_configuration.max_active_responses
            < required_configuration.max_active_responses {
            Some(RequestResponseOpenError::DoesNotSupportRequestedAmountOfActiveResponses)
        } else if self.verify_max_active_requests && existing_configuration.max_active_requests
            < required_configuration.max_active_requests {
            Some(RequestResponseOpenError::DoesNotSupportRequestedAmountOfActiveRequests)
        } else if self.verify_max_borrowed_responses && existing_configuration.max_borrowed_responses
            < required_configuration.max_borrowed_responses {
            Some(RequestResponseOpenError::DoesNotSupportRequestedAmountOfBorrowedResponses)
        } else if self.verify_max_borrowed_requests && existing_configuration.max_borrowed_requests
            < required_configuration.max_borrowed_requests {
            Some(RequestResponseOpenError::DoesNotSupportRequestedAmountOfBorrowedRequests)
        } else if self.verify_max_response_buffer_size && existing_configuration.max_response_buffer_size
            < required_configuration.max_response_buffer_size {
            Some(RequestResponseOpenError::DoesNotSupportRequestedResponseBufferSize)
        } else if self.verify_max_request_buffer_size && existing_configuration.max_request_buffer_size
            < required_configuration.max_request_buffer_size {
            Some(RequestResponseOpenError::DoesNotSupportRequestedRequestBufferSize)
        } else if self.verify_max_servers && existing_configuration.max_servers < required_configuration.max_servers {
            Some(RequestResponseOpenError::DoesNotSupportRequestedAmountOfServers)
        } else if self.verify_max_clients && existing_configuration.max_clients < required_configuration.max_clients {
            Some(RequestResponseOpenError::DoesNotSupportRequestedAmountOfClients)
        } else if self.verify_max_nodes && existing_configuration.max_nodes < required_configuration.max_nodes {
            Some(RequestResponseOpenError::DoesNotSupportRequestedAmountOfNodes)
        } else {
            None
        }
    }

    /// Checks an existing service against what the builder insists on, and
    /// hands out the settings of the service if it satisfies all of it.
    /// `attributes_satisfied` says whether the service has the attributes
    /// that are required of it.
    pub fn verify_service_configuration(
        &self,
        existing_settings: &MessagingPatternConfig,
        attributes_satisfied: bool,
    ) -> (result: Result<StaticConfig, RequestResponseOpenError>)
        ensures
            match result {
                Ok(config) => {
                    &&& attributes_satisfied
                    &&& *existing_settings matches MessagingPatternConfig::RequestResponse(existing)
                    &&& spec_shortcoming(self@.insists, self@.limits, existing.spec_limits()).is_none()
                    &&& config.spec_limits() == existing.spec_limits()
                    &&& config.request_message_type_details.spec_same(&existing.request_message_type_details)
                    &&& config.response_message_type_details.spec_same(&existing.response_message_type_details)
                },
                Err(e) => if !attributes_satisfied {
                    e == RequestResponseOpenError::IncompatibleAttributes
                } else {
                    match *existing_settings {
                        MessagingPatternConfig::RequestResponse(existing) => spec_shortcoming(
                            self@.insists,
                            self@.limits,
                            existing.spec_limits(),
                        ) == Some(e),
                        _ => e == RequestResponseOpenError::IncompatibleMessagingPattern,
                    }
                },
            },
    {
        if !attributes_satisfied {
            return Err(RequestResponseOpenError::IncompatibleAttributes);
        }
        let existing_configuration = match existing_settings {
            MessagingPatternConfig::RequestResponse(v) => v,
            _ => {
                return Err(RequestResponseOpenError::IncompatibleMessagingPattern);
            },
        };
        match self.shortcoming(existing_configuration) {
            Some(e) => {
                return Err(e);
            },
            None => {},
        }
        Ok(
            StaticConfig {
                enable_safe_overflow_for_requests: existing_configuration.enable_safe_overflow_for_requests,
                enable_safe_overflow_for_responses: existing_configuration.enable_safe_overflow_for_responses,
                max_active_responses: existing_configuration.max_active_responses,
                max_active_requests: existing_configuration.max_active_requests,
                max_borrowed_responses: existing_configuration.max_borrowed_responses,
                max_borrowed_requests: existing_configuration.max_borrowed_requests,
                max_response_buffer_size: existing_configuration.max_response_buffer_size,
                max_request_buffer_size: existing_configuration.max_request_buffer_size,
                max_servers: existing_configuration.max_servers,
                max_clients: existing_configuration.max_clients,
                max_nodes: existing_configuration.max_nodes,
                request_message_type_details: existing_configuration.request_message_type_details.clone_details(),
                response_message_type_details: existing_configuration.response_message_type_details.clone_details(),
            },
        )
    }

    /// Takes over the types of the requests and the responses, and raises
    /// the alignment of a payload to the one that was asked for if that is
    /// stricter.
    pub fn prepare_message_type_details(&mut self, request: MessageTypeDetails, response: MessageTypeDetails)
        ensures
            final(self)@ == old(self)@,
            final(self).spec_request_type() == spec_with_alignment(request, old(self)@.override_request_alignment),
            final(self).spec_response_type() == spec_with_alignment(response, old(self)@.override_response_alignment),
    {
        let request = with_alignment(request, self.override_request_alignment);
        let response = with_alignment(response, self.override_response_alignment);
        self.service_config.request_message_type_details = request;
        self.service_config.response_message_type_details = response;
    }

    /// Passes on what looking up the service has found, unless the service
    /// that was found has other types of requests or responses than the
    /// builder asks for.
    pub fn is_service_available(&self, found: Result<Option<MessagingPatternConfig>, ServiceState>) -> (result:
        Result<Option<MessagingPatternConfig>, ServiceAvailabilityState>)
        ensures
            result == Self::spec_availability(self.spec_request_type(), self.spec_response_type(), found),
    {
        match found {
            Ok(Some(MessagingPatternConfig::RequestResponse(existing))) => {
                if !self.service_config.request_message_type_details.is_compatible_to(
                    &existing.request_message_type_details,
                ) {
                    return Err(ServiceAvailabilityState::IncompatibleRequestType);
                }
                if !self.service_config.response_message_type_details.is_compatible_to(
                    &existing.response_message_type_details,
                ) {
                    return Err(ServiceAvailabilityState::IncompatibleResponseType);
                }
                Ok(Some(MessagingPatternConfig::RequestResponse(existing)))
            },
            Ok(Some(_)) => Err(ServiceAvailabilityState::ServiceState(ServiceState::IncompatibleMessagingPattern)),
            Ok(None) => Ok(None),
            Err(e) => Err(ServiceAvailabilityState::ServiceState(e)),
        }
    }
}

impl Builder {
    /// What looking up the service comes to for a builder that asks for
    /// the types `request` and `response`.
    pub open spec fn spec_availability(
        request: MessageTypeDetails,
        response: MessageTypeDetails,
        found: Result<Option<MessagingPatternConfig>, ServiceState>,
    ) -> Result<Option<MessagingPatternConfig>, ServiceAvailabilityState> {
        match found {
            Err(e) => Err(ServiceAvailabilityState::ServiceState(e)),
            Ok(None) => Ok(None),
            Ok(Some(MessagingPatternConfig::RequestResponse(existing))) => if !request.spec_is_compatible_to(
                &existing.request_message_type_details,
            ) {
                Err(ServiceAvailabilityState::IncompatibleRequestType)
            } else if !response.spec_is_compatible_to(&existing.response_message_type_details) {
                Err(ServiceAvailabilityState::IncompatibleResponseType)
            } else {
                Ok(Some(MessagingPatternConfig::RequestResponse(existing)))
            },
            Ok(Some(other)) => Err(ServiceAvailabilityState::ServiceState(ServiceState::IncompatibleMessagingPattern)),
        }
    }

    /// The settings of the service that the builder creates, if there is
    /// no service yet: what the builder has collected, with the limits
    /// made meaningful and the types prepared.
    pub fn create(
        self,
        request: MessageTypeDetails,
        response: MessageTypeDetails,
        found: Result<Option<MessagingPatternConfig>, ServiceState>,
    ) -> (result: Result<StaticConfig, RequestResponseCreateError>)
        ensures
            match Self::spec_availability(
                spec_with_alignment(request, self@.override_request_alignment),
                spec_with_alignment(response, self@.override_response_alignment),
                found,
            ) {
                Err(e) => result matches Err(error) && error == RequestResponseCreateError::spec_from(e),
                Ok(Some(_)) => result matches Err(error) && error == RequestResponseCreateError::AlreadyExists,
                Ok(None) => {
                    &&& result matches Ok(config)
                    &&& config.spec_limits() == self@.limits.spec_adjusted()
                    &&& config.request_message_type_details == spec_with_alignment(
                        request,
                        self@.override_request_alignment,
                    )
                    &&& config.response_message_type_details == spec_with_alignment(
                        response,
                        self@.override_response_alignment,
                    )
                },
            },
    {
        let mut builder = self;
        builder.prepare_message_type_details(request, response);
        builder.adjust_configuration_to_meaningful_values();
        match builder.is_service_available(found) {
            Err(e) => Err(RequestResponseCreateError::from(e)),
            Ok(Some(_)) => Err(RequestResponseCreateError::AlreadyExists),
            Ok(None) => Ok(builder.service_config),
        }
    }

    /// The settings of the existing service that the builder opens, if
    /// there is one and it satisfies what the builder insists on. Nothing
    /// is required of the attributes of the service.
    pub fn open(
        self,
        request: MessageTypeDetails,
        response: MessageTypeDetails,
        found: Result<Option<MessagingPatternConfig>, ServiceState>,
    ) -> (result: Result<StaticConfig, RequestResponseOpenError>)
        ensures
            match Self::spec_availability(
                spec_with_alignment(request, self@.override_request_alignment),
                spec_with_alignment(response, self@.override_response_alignment),
                found,
            ) {
                Err(e) => result matches Err(error) && error == RequestResponseOpenError::spec_from(e),
                Ok(None) => result matches Err(error) && error == RequestResponseOpenError::DoesNotExist,
                Ok(Some(MessagingPatternConfig::RequestResponse(existing))) => match spec_shortcoming(
                    self@.insists,
                    self@.limits,
                    existing.spec_limits(),
                ) {
                    Some(e) => result matches Err(error) && error == e,
                    None => {
                        &&& result matches Ok(config)
                        &&& config.spec_limits() == existing.spec_limits()
                        &&& config.request_message_type_details.spec_same(&existing.request_message_type_details)
                        &&& config.response_message_type_details.spec_same(&existing.response_message_type_details)
                    },
                },
                Ok(Some(_)) => false,
            },
    {
        self.open_with_attributes(request, response, found, true)
    }

    /// The settings of the existing service that the builder opens, if
    /// there is one and it satisfies what the builder insists on.
    /// `attributes_satisfied` says whether the service has the attributes
    /// that are required of it.
    pub fn open_with_attributes(
        self,
        request: MessageTypeDetails,
        response: MessageTypeDetails,
        found: Result<Option<MessagingPatternConfig>, ServiceState>,
        attributes_satisfied: bool,
    ) -> (result: Result<StaticConfig, RequestResponseOpenError>)
        ensures
            match Self::spec_availability(
                spec_with_alignment(request, self@.override_request_alignment),
                spec_with_alignment(response, self@.override_response_alignment),
                found,
            ) {
                Err(e) => result matches Err(error) && error == RequestResponseOpenError::spec_from(e),
                Ok(None) => result matches Err(error) && error == RequestResponseOpenError::DoesNotExist,
                Ok(Some(MessagingPatternConfig::RequestResponse(existing))) => if !attributes_satisfied {
                    result matches Err(error) && error == RequestResponseOpenError::IncompatibleAttributes
                } else {
                    match spec_shortcoming(self@.insists, self@.limits, existing.spec_limits()) {
                        Some(e) => result matches Err(error) && error == e,
                        None => {
                            &&& result matches Ok(config)
                            &&& config.spec_limits() == existing.spec_limits()
                            &&& config.request_message_type_details.spec_same(&existing.request_message_type_details)
                            &&& config.response_message_type_details.spec_same(
                                &existing.response_message_type_details,
                            )
                        },
                    }
                },
                Ok(Some(_)) => false,
            },
    {
        let mut builder = self;
        builder.prepare_message_type_details(request, response);
        match builder.is_service_available(found) {
            Err(e) => Err(RequestResponseOpenError::from(e)),
            Ok(None) => Err(RequestResponseOpenError::DoesNotExist),
            Ok(Some(existing)) => builder.verify_service_configuration(&existing, attributes_satisfied),
        }
    }
}

/// Whether a service that was looked up can be created: only if there is
/// none yet.
pub fn create_impl(availability: Result<bool, ServiceAvailabilityState>) -> (result: Result<
    (),
    RequestResponseCreateError,
>)
    ensures
        result == match availability {
            Err(e) => Err::<(), RequestResponseCreateError>(RequestResponseCreateError::spec_from(e)),
            Ok(true) => Err(RequestResponseCreateError::AlreadyExists),
            Ok(false) => Ok(()),
        },
{
    match availability {
        Err(e) => Err(RequestResponseCreateError::from(e)),
        Ok(true) => Err(RequestResponseCreateError::AlreadyExists),
        Ok(false) => Ok(()),
    }
}

/// Names the error of a creation whose static part could not be created.
pub fn static_storage_create_error(error: StaticStorageCreateError) -> (e: RequestResponseCreateError)
    ensures
        e == match error {
            StaticStorageCreateError::AlreadyExists => RequestResponseCreateError::AlreadyExists,
            StaticStorageCreateError::Creation => RequestResponseCreateError::IsBeingCreatedByAnotherInstance,
            StaticStorageCreateError::InsufficientPermissions => RequestResponseCreateError::InsufficientPermissions,
            _ => RequestResponseCreateError::InternalFailure,
        },
{
    match error {
        StaticStorageCreateError::AlreadyExists => RequestResponseCreateError::AlreadyExists,
        StaticStorageCreateError::Creation => RequestResponseCreateError::IsBeingCreatedByAnotherInstance,
        StaticStorageCreateError::InsufficientPermissions => RequestResponseCreateError::InsufficientPermissions,
        _ => RequestResponseCreateError::InternalFailure,
    }
}

/// Names the error of a creation whose dynamic part could not be created:
/// a dynamic part that is already there is left over from an earlier
/// instance of the service.
pub fn dynamic_storage_create_error(error: DynamicStorageCreateError) -> (e: RequestResponseCreateError)
    ensures
        e == match error {
            DynamicStorageCreateError::AlreadyExists => RequestResponseCreateError::ServiceInCorruptedState,
            _ => RequestResponseCreateError::InternalFailure,
        },
{
    match error {
        DynamicStorageCreateError::AlreadyExists => RequestResponseCreateError::ServiceInCorruptedState,
        _ => RequestResponseCreateError::InternalFailure,
    }
}

/// What opening a service does next.
#[derive(Debug, Clone, Copy, PartialEq, Eq, Structural)]
pub enum OpenStep {
    /// The service is open.
    Done,
    /// Look the service up and try again; so many tries have failed.
    Retry(usize),
    /// The attempt ends with this error.
    Fail(RequestResponseOpenError),
}

/// The next step of opening a service once its dynamic part was tried to
/// be opened, after `retry_count` tries that failed. `still_available`
/// says whether the service can still be found after a failure.
pub open spec fn spec_open_step(
    outcome: Result<(), OpenDynamicStorageFailure>,
    still_available: Result<bool, ServiceAvailabilityState>,
    retry_count: usize,
) -> OpenStep {
    match outcome {
        Ok(()) => OpenStep::Done,
        Err(OpenDynamicStorageFailure::IsMarkedForDestruction) => OpenStep::Fail(
            RequestResponseOpenError::IsMarkedForDestruction,
        ),
        Err(OpenDynamicStorageFailure::ExceedsMaxNumberOfNodes) => OpenStep::Fail(
            RequestResponseOpenError::ExceedsMaxNumberOfNodes,
        ),
        Err(
            OpenDynamicStorageFailure::DynamicStorageOpenError(DynamicStorageOpenError::DoesNotExist),
        ) => OpenStep::Fail(RequestResponseOpenError::ServiceInCorruptedState),
        Err(_) => match still_available {
            Err(e) => OpenStep::Fail(RequestResponseOpenError::spec_from(e)),
            Ok(false) => OpenStep::Fail(RequestResponseOpenError::DoesNotExist),
            Ok(true) => if OPEN_RETRY_LIMIT <= retry_count {
                OpenStep::Fail(RequestResponseOpenError::ServiceInCorruptedState)
            } else {
                OpenStep::Retry((retry_count + 1) as usize)
            },
        },
    }
}

/// Decides the next step of opening a service.
pub fn open_impl(
    outcome: Result<(), OpenDynamicStorageFailure>,
    still_available: Result<bool, ServiceAvailabilityState>,
    retry_count: usize,
) -> (step: OpenStep)
    ensures
        step == spec_open_step(outcome, still_available, retry_count),
        step matches OpenStep::Retry(n) ==> n == retry_count + 1 && n <= OPEN_RETRY_LIMIT,
{
    match outcome {
        Ok(()) => OpenStep::Done,
        Err(OpenDynamicStorageFailure::IsMarkedForDestruction) => OpenStep::Fail(
            RequestResponseOpenError::IsMarkedForDestruction,
        ),
        Err(OpenDynamicStorageFailure::ExceedsMaxNumberOfNodes) => OpenStep::Fail(
            RequestResponseOpenError::ExceedsMaxNumberOfNodes,
        ),
        Err(
            OpenDynamicStorageFailure::DynamicStorageOpenError(DynamicStorageOpenError::DoesNotExist),
        ) => OpenStep::Fail(RequestResponseOpenError::ServiceInCorruptedState),
        Err(_) => match still_available {
            Err(e) => OpenStep::Fail(RequestResponseOpenError::from(e)),
            Ok(false) => OpenStep::Fail(RequestResponseOpenError::DoesNotExist),
            Ok(true) => if OPEN_RETRY_LIMIT <= retry_count {
                OpenStep::Fail(RequestResponseOpenError::ServiceInCorruptedState)
            } else {
                OpenStep::Retry(retry_count + 1)
            },
        },
    }
}

/// What opening or creating a service does next.
#[derive(Debug, Clone, Copy, PartialEq, Eq, Structural)]
pub enum OpenOrCreateStep {
    /// The service is open.
    Done,
    /// Look the service up and try again.
    Retry,
    /// The attempt ends with this error.
    Fail(RequestResponseOpenOrCreateError),
}

/// What an attempt to open or to create a service came to.
#[derive(Debug, Clone, Copy)]
pub enum Attempt {
    Opened(Result<(), RequestResponseOpenError>),
    Created(Result<(), RequestResponseCreateError>),
}

/// The next step of opening or creating a service after an attempt. A
/// service that vanished while it was opened, or appeared while it was
/// created, is looked up again.
pub open spec fn spec_open_or_create_step(attempt: Attempt) -> OpenOrCreateStep {
    match attempt {
        Attempt::Opened(Ok(())) => OpenOrCreateStep::Done,
        Attempt::Opened(Err(RequestResponseOpenError::DoesNotExist)) => OpenOrCreateStep::Retry,
        Attempt::Opened(Err(e)) => OpenOrCreateStep::Fail(
            RequestResponseOpenOrCreateError::RequestResponseOpenError(e),
        ),
        Attempt::Created(Ok(())) => OpenOrCreateStep::Done,
        Attempt::Created(Err(RequestResponseCreateError::AlreadyExists)) => OpenOrCreateStep::Retry,
        Attempt::Created(Err(RequestResponseCreateError::IsBeingCreatedByAnotherInstance)) => OpenOrCreateStep::Retry,
        Attempt::Created(Err(e)) => OpenOrCreateStep::Fail(
            RequestResponseOpenOrCreateError::RequestResponseCreateError(e),
        ),
    }
}

/// Whether opening or creating a service goes into another round: not
/// when more rounds than the limit have been started already.
pub fn open_or_create_impl(retry_count: usize) -> (result: Result<usize, RequestResponseOpenOrCreateError>)
    ensures
        result == if RETRY_LIMIT < retry_count {
            Err::<usize, RequestResponseOpenOrCreateError>(RequestResponseOpenOrCreateError::SystemInFlux)
        } else {
            Ok((retry_count + 1) as usize)
        },
{
    if RETRY_LIMIT < retry_count {
        Err(RequestResponseOpenOrCreateError::SystemInFlux)
    } else {
        Ok(retry_count + 1)
    }
}

/// Decides the next step of opening or creating a service.
pub fn open_or_create_step(attempt: Attempt) -> (step: OpenOrCreateStep)
    ensures
        step == spec_open_or_create_step(attempt),
{
    match attempt {
        Attempt::Opened(Ok(())) => OpenOrCreateStep::Done,
        Attempt::Opened(Err(RequestResponseOpenError::DoesNotExist)) => OpenOrCreateStep::Retry,
        Attempt::Opened(Err(e)) => OpenOrCreateStep::Fail(RequestResponseOpenOrCreateError::from(e)),
        Attempt::Created(Ok(())) => OpenOrCreateStep::Done,
        Attempt::Created(Err(RequestResponseCreateError::AlreadyExists)) => OpenOrCreateStep::Retry,
        Attempt::Created(Err(RequestResponseCreateError::IsBeingCreatedByAnotherInstance)) => OpenOrCreateStep::Retry,
        Attempt::Created(Err(e)) => OpenOrCreateStep::Fail(RequestResponseOpenOrCreateError::from(e)),
    }
}

/// A service that insists on a limit can be opened by a builder that asks
/// for less of it, and not by one that asks for more.
pub proof fn lemma_open_needs_no_more_than_exists(insists: Requirements, required: Limits, existing: Limits)
    requires
        required.enable_safe_overflow_for_requests == existing.enable_safe_overflow_for_requests,
        required.enable_safe_overflow_for_responses == existing.enable_safe_overflow_for_responses,
        required.max_active_responses <= existing.max_active_responses,
        required.max_active_requests <= existing.max_active_requests,
        required.max_borrowed_responses <= existing.max_borrowed_responses,
        required.max_borrowed_requests <= existing.max_borrowed_requests,
        required.max_response_buffer_size <= existing.max_response_buffer_size,
        required.max_request_buffer_size <= existing.max_request_buffer_size,
        required.max_servers <= existing.max_servers,
        required.max_clients <= existing.max_clients,
        required.max_nodes <= existing.max_nodes,
    ensures
        spec_shortcoming(insists, required, existing).is_none(),
{
}

} // verus!
