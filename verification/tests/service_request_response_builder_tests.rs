use iceoryx2_bb_elementary::alignment::Alignment;
use zero_copy_transport::config::Config;
use zero_copy_transport::dynamic_storage::{DynamicStorageCreateError, DynamicStorageOpenError};
use zero_copy_transport::message_type_details::{MessageTypeDetails, TypeDetail, TypeVariant};
use zero_copy_transport::request_response::{
    create_impl, dynamic_storage_create_error, meaningful, open_impl, open_or_create_impl, open_or_create_step,
    static_storage_create_error, Attempt, Builder, MessagingPatternConfig, OpenDynamicStorageFailure,
    OpenOrCreateStep, OpenStep, RequestResponseCreateError, RequestResponseOpenError,
    RequestResponseOpenOrCreateError, ServiceAvailabilityState, ServiceState, StaticConfig,
    StaticStorageCreateError, OPEN_RETRY_LIMIT, RETRY_LIMIT,
};

fn type_details(payload: &str, user_header: &str, user_header_size: usize) -> MessageTypeDetails {
    MessageTypeDetails::from_details(
        TypeDetail::new(TypeVariant::FixedSize, "RequestHeader".to_string(), 0, 1),
        TypeDetail::new(TypeVariant::FixedSize, user_header.to_string(), user_header_size, 1),
        TypeDetail::new(TypeVariant::FixedSize, payload.to_string(), 8, 8),
    )
}

fn u64_type() -> MessageTypeDetails {
    type_details("u64", "()", 0)
}

fn defaults(config: &Config) -> StaticConfig {
    let rpc = &config.defaults.request_response;
    StaticConfig {
        enable_safe_overflow_for_requests: rpc.enable_safe_overflow_for_requests,
        enable_safe_overflow_for_responses: rpc.enable_safe_overflow_for_responses,
        max_active_responses: rpc.max_active_responses,
        max_active_requests: rpc.max_active_requests,
        max_borrowed_responses: rpc.max_borrowed_responses,
        max_borrowed_requests: rpc.max_borrowed_requests,
        max_response_buffer_size: rpc.max_response_buffer_size,
        max_request_buffer_size: rpc.max_request_buffer_size,
        max_servers: rpc.max_servers,
        max_clients: rpc.max_clients,
        max_nodes: rpc.max_nodes,
        request_message_type_details: u64_type(),
        response_message_type_details: u64_type(),
    }
}

/// What is stored about the services of one name.
struct Services {
    config: Config,
    stored: Option<MessagingPatternConfig>,
    nodes: usize,
}

impl Services {
    fn new() -> Self {
        Self { config: Config::default(), stored: None, nodes: 0 }
    }

    fn request_response(&self) -> Builder {
        Builder::new(defaults(&self.config))
    }

    fn create(&mut self, builder: Builder) -> Result<StaticConfig, RequestResponseCreateError> {
        self.create_typed(builder, u64_type(), u64_type())
    }

    fn create_typed(
        &mut self,
        builder: Builder,
        request: MessageTypeDetails,
        response: MessageTypeDetails,
    ) -> Result<StaticConfig, RequestResponseCreateError> {
        let config = builder.create(request, response, Ok(self.stored.clone()))?;
        self.stored = Some(MessagingPatternConfig::RequestResponse(config.clone()));
        self.nodes = 1;
        Ok(config)
    }

    fn open(&mut self, builder: Builder) -> Result<StaticConfig, RequestResponseOpenError> {
        self.open_typed(builder, u64_type(), u64_type(), true)
    }

    fn open_typed(
        &mut self,
        builder: Builder,
        request: MessageTypeDetails,
        response: MessageTypeDetails,
        attributes_satisfied: bool,
    ) -> Result<StaticConfig, RequestResponseOpenError> {
        let config = builder.open_with_attributes(request, response, Ok(self.stored.clone()), attributes_satisfied)?;
        let outcome = if self.nodes < config.max_nodes() {
            Ok(())
        } else {
            Err(OpenDynamicStorageFailure::ExceedsMaxNumberOfNodes)
        };
        match open_impl(outcome, Ok(true), 0) {
            OpenStep::Done => {
                self.nodes += 1;
                Ok(config)
            }
            OpenStep::Fail(e) => Err(e),
            OpenStep::Retry(_) => unreachable!(),
        }
    }
}

#[test]
fn open_existing_service_works() {
    let mut services = Services::new();
    let sut_create = services.create(services.request_response());
    assert!(sut_create.is_ok());
    let sut_open = services.open(services.request_response());
    assert!(sut_open.is_ok());
}

#[test]
fn open_non_existing_service_fails() {
    let mut services = Services::new();
    let sut_open = services.open(services.request_response());
    assert_eq!(sut_open.err(), Some(RequestResponseOpenError::DoesNotExist));
}

#[test]
fn creating_existing_service_fails() {
    let mut services = Services::new();
    let _sut = services.create(services.request_response()).unwrap();
    let sut_create = services.create(services.request_response());
    assert_eq!(sut_create.err(), Some(RequestResponseCreateError::AlreadyExists));
}

#[test]
fn open_or_create_works_with_existing_and_non_existing_services() {
    let mut services = Services::new();
    // nothing there: create
    assert_eq!(open_or_create_impl(0), Ok(1));
    let created = services.create(services.request_response()).map(|_| ());
    assert_eq!(open_or_create_step(Attempt::Created(created)), OpenOrCreateStep::Done);
    // something there: open
    let opened = services.open(services.request_response()).map(|_| ());
    assert_eq!(open_or_create_step(Attempt::Opened(opened)), OpenOrCreateStep::Done);
}

#[test]
fn opening_service_with_mismatching_request_type_fails() {
    let mut services = Services::new();
    assert!(services.create(services.request_response()).is_ok());

    let sut_open = services.open_typed(services.request_response(), type_details("i64", "()", 0), u64_type(), true);
    assert_eq!(sut_open.err(), Some(RequestResponseOpenError::IncompatibleRequestType));

    let sut_open = services.open_typed(services.request_response(), type_details("u64", "u64", 8), u64_type(), true);
    assert_eq!(sut_open.err(), Some(RequestResponseOpenError::IncompatibleRequestType));
}

#[test]
fn opening_service_with_incompatible_request_type_alignment_fails() {
    let mut services = Services::new();
    assert!(services.create(services.request_response()).is_ok());
    let sut_open =
        services.open(services.request_response().request_payload_alignment(Alignment::new(512).unwrap()));
    assert_eq!(sut_open.err(), Some(RequestResponseOpenError::IncompatibleRequestType));
}

#[test]
fn opening_service_with_compatible_request_type_alignment_works() {
    let mut services = Services::new();
    let sut_create =
        services.create(services.request_response().request_payload_alignment(Alignment::new(512).unwrap()));
    assert!(sut_create.is_ok());
    assert_eq!(sut_create.unwrap().request_message_type_details.payload.alignment, 512);
    let sut_open =
        services.open(services.request_response().request_payload_alignment(Alignment::new(128).unwrap()));
    assert!(sut_open.is_ok());
}

#[test]
fn opening_service_with_mismatching_response_type_fails() {
    let mut services = Services::new();
    assert!(services.create(services.request_response()).is_ok());

    let sut_open = services.open_typed(services.request_response(), u64_type(), type_details("i64", "()", 0), true);
    assert_eq!(sut_open.err(), Some(RequestResponseOpenError::IncompatibleResponseType));

    let sut_open = services.open_typed(services.request_response(), u64_type(), type_details("u64", "u64", 8), true);
    assert_eq!(sut_open.err(), Some(RequestResponseOpenError::IncompatibleResponseType));
}

#[test]
fn opening_service_with_incompatible_response_type_alignment_fails() {
    let mut services = Services::new();
    assert!(services.create(services.request_response()).is_ok());
    let sut_open =
        services.open(services.request_response().response_payload_alignment(Alignment::new(512).unwrap()));
    assert_eq!(sut_open.err(), Some(RequestResponseOpenError::IncompatibleResponseType));
}

#[test]
fn opening_service_with_compatible_response_type_alignment_works() {
    let mut services = Services::new();
    let sut_create =
        services.create(services.request_response().request_payload_alignment(Alignment::new(512).unwrap()));
    assert!(sut_create.is_ok());
    let sut_open =
        services.open(services.request_response().request_payload_alignment(Alignment::new(128).unwrap()));
    assert!(sut_open.is_ok());
}

#[test]
fn opening_service_with_incompatible_attributes_fails() {
    let mut services = Services::new();
    let _sut_create = services.create(services.request_response()).unwrap();
    let sut_open = services.open_typed(services.request_response(), u64_type(), u64_type(), false);
    assert_eq!(sut_open.err(), Some(RequestResponseOpenError::IncompatibleAttributes));
}

#[test]
fn opening_service_with_compatible_attributes_works() {
    let mut services = Services::new();
    let _sut_create = services.create(services.request_response()).unwrap();
    let sut_open = services.open_typed(services.request_response(), u64_type(), u64_type(), true);
    assert!(sut_open.is_ok());
}

#[test]
fn open_fails_when_service_does_not_satisfy_request_overflow_requirement() {
    let mut services = Services::new();
    let sut_create = services.create(services.request_response().enable_safe_overflow_for_requests(true));
    assert!(sut_create.is_ok());
    let sut_open = services.open(services.request_response().enable_safe_overflow_for_requests(false));
    assert_eq!(sut_open.err(), Some(RequestResponseOpenError::IncompatibleOverflowBehaviorForRequests));
}

#[test]
fn open_fails_when_service_does_not_satisfy_response_overflow_requirement() {
    let mut services = Services::new();
    let sut_create = services.create(services.request_response().enable_safe_overflow_for_responses(true));
    assert!(sut_create.is_ok());
    let sut_open = services.open(services.request_response().enable_safe_overflow_for_responses(false));
    assert_eq!(sut_open.err(), Some(RequestResponseOpenError::IncompatibleOverflowBehaviorForResponses));
}

fn open_verifies(set: fn(Builder, usize) -> Builder, error: RequestResponseOpenError) {
    let mut services = Services::new();
    let sut_create = services.create(set(services.request_response(), 10));
    assert!(sut_create.is_ok());
    let sut_open = services.open(set(services.request_response(), 11));
    assert_eq!(sut_open.err(), Some(error));
    let sut_open = services.open(set(services.request_response(), 9));
    assert!(sut_open.is_ok());
}

#[test]
fn open_verifies_max_active_responses_correctly() {
    open_verifies(
        |b, v| b.max_active_responses(v),
        RequestResponseOpenError::DoesNotSupportRequestedAmountOfActiveResponses,
    );
}

#[test]
fn open_verifies_max_active_requests_correctly() {
    open_verifies(
        |b, v| b.max_active_requests(v),
        RequestResponseOpenError::DoesNotSupportRequestedAmountOfActiveRequests,
    );
}

#[test]
fn open_verifies_max_borrowed_responses_correctly() {
    open_verifies(
        |b, v| b.max_borrowed_responses(v),
        RequestResponseOpenError::DoesNotSupportRequestedAmountOfBorrowedResponses,
    );
}

#[test]
fn open_verifies_max_borrowed_requests_correctly() {
    open_verifies(
        |b, v| b.max_borrowed_requests(v),
        RequestResponseOpenError::DoesNotSupportRequestedAmountOfBorrowedRequests,
    );
}

#[test]
fn open_verifies_max_response_buffer_size_correctly() {
    open_verifies(
        |b, v| b.max_response_buffer_size(v),
        RequestResponseOpenError::DoesNotSupportRequestedResponseBufferSize,
    );
}

#[test]
fn open_verifies_max_request_buffer_size_correctly() {
    open_verifies(
        |b, v| b.max_request_buffer_size(v),
        RequestResponseOpenError::DoesNotSupportRequestedRequestBufferSize,
    );
}

#[test]
fn open_verifies_max_amount_of_servers_correctly() {
    open_verifies(|b, v| b.max_servers(v), RequestResponseOpenError::DoesNotSupportRequestedAmountOfServers);
}

#[test]
fn open_verifies_max_amount_of_clients_correctly() {
    open_verifies(|b, v| b.max_clients(v), RequestResponseOpenError::DoesNotSupportRequestedAmountOfClients);
}

#[test]
fn open_verifies_max_amount_of_nodes_correctly() {
    open_verifies(|b, v| b.max_nodes(v), RequestResponseOpenError::DoesNotSupportRequestedAmountOfNodes);
}

#[test]
fn service_builder_adjusts_config_to_sane_values() {
    let mut services = Services::new();
    let sut_create = services.create(
        services
            .request_response()
            .max_active_requests(0)
            .max_active_responses(0)
            .max_borrowed_requests(0)
            .max_borrowed_responses(0)
            .max_request_buffer_size(0)
            .max_response_buffer_size(0)
            .max_servers(0)
            .max_clients(0)
            .max_nodes(0),
    );
    assert!(sut_create.is_ok());
    let sut_create = sut_create.unwrap();

    assert_eq!(sut_create.max_active_requests(), 1);
    assert_eq!(sut_create.max_active_responses(), 1);
    assert_eq!(sut_create.max_borrowed_requests(), 1);
    assert_eq!(sut_create.max_borrowed_responses(), 1);
    assert_eq!(sut_create.max_request_buffer_size(), 1);
    assert_eq!(sut_create.max_response_buffer_size(), 1);
    assert_eq!(sut_create.max_servers(), 1);
    assert_eq!(sut_create.max_clients(), 1);
    assert_eq!(sut_create.max_nodes(), 1);
    assert_eq!(meaningful(0), 1);
    assert_eq!(meaningful(7), 7);
}

fn overridden(services: &mut Services, value: usize) {
    let rpc_config = &mut services.config.defaults.request_response;
    rpc_config.enable_safe_overflow_for_requests = true;
    rpc_config.enable_safe_overflow_for_responses = true;
    rpc_config.max_active_requests = value;
    rpc_config.max_active_responses = value;
    rpc_config.max_borrowed_requests = value;
    rpc_config.max_borrowed_responses = value;
    rpc_config.max_request_buffer_size = value;
    rpc_config.max_response_buffer_size = value;
    rpc_config.max_servers = value;
    rpc_config.max_clients = value;
    rpc_config.max_nodes = value;
}

fn set_everything(builder: Builder) -> Builder {
    builder
        .enable_safe_overflow_for_requests(false)
        .enable_safe_overflow_for_responses(false)
        .max_active_requests(1)
        .max_active_responses(2)
        .max_borrowed_requests(3)
        .max_borrowed_responses(4)
        .max_request_buffer_size(5)
        .max_response_buffer_size(6)
        .max_servers(7)
        .max_clients(8)
        .max_nodes(9)
}

fn assert_everything_set(config: &StaticConfig) {
    assert_eq!(config.has_safe_overflow_for_requests(), false);
    assert_eq!(config.has_safe_overflow_for_responses(), false);
    assert_eq!(config.max_active_requests(), 1);
    assert_eq!(config.max_active_responses(), 2);
    assert_eq!(config.max_borrowed_requests(), 3);
    assert_eq!(config.max_borrowed_responses(), 4);
    assert_eq!(config.max_request_buffer_size(), 5);
    assert_eq!(config.max_response_buffer_size(), 6);
    assert_eq!(config.max_servers(), 7);
    assert_eq!(config.max_clients(), 8);
    assert_eq!(config.max_nodes(), 9);
}

#[test]
fn service_builder_parameters_override_default_config() {
    let mut services = Services::new();
    overridden(&mut services, 100);
    let sut_create = services.create(set_everything(services.request_response()));
    assert!(sut_create.is_ok());
    assert_everything_set(&sut_create.unwrap());
}

#[test]
fn service_builder_uses_config_when_user_sets_nothing() {
    let mut services = Services::new();
    let rpc_config = &mut services.config.defaults.request_response;
    rpc_config.enable_safe_overflow_for_requests = true;
    rpc_config.enable_safe_overflow_for_responses = true;
    rpc_config.max_active_requests = 11;
    rpc_config.max_active_responses = 12;
    rpc_config.max_borrowed_requests = 13;
    rpc_config.max_borrowed_responses = 14;
    rpc_config.max_request_buffer_size = 15;
    rpc_config.max_response_buffer_size = 16;
    rpc_config.max_servers = 17;
    rpc_config.max_clients = 18;
    rpc_config.max_nodes = 19;

    let sut_create = services.create(services.request_response());
    assert!(sut_create.is_ok());
    let sut_create = sut_create.unwrap();

    assert_eq!(sut_create.has_safe_overflow_for_requests(), true);
    assert_eq!(sut_create.has_safe_overflow_for_responses(), true);
    assert_eq!(sut_create.max_active_requests(), 11);
    assert_eq!(sut_create.max_active_responses(), 12);
    assert_eq!(sut_create.max_borrowed_requests(), 13);
    assert_eq!(sut_create.max_borrowed_responses(), 14);
    assert_eq!(sut_create.max_request_buffer_size(), 15);
    assert_eq!(sut_create.max_response_buffer_size(), 16);
    assert_eq!(sut_create.max_servers(), 17);
    assert_eq!(sut_create.max_clients(), 18);
    assert_eq!(sut_create.max_nodes(), 19);
}

#[test]
fn opened_service_reads_config_correctly() {
    let mut services = Services::new();
    let _sut_create = services.create(set_everything(services.request_response())).unwrap();
    let sut_open = services.open(services.request_response()).unwrap();
    assert_everything_set(&sut_open);
}

#[test]
fn service_cannot_be_opened_by_more_nodes_than_specified() {
    let mut services = Services::new();
    let sut_1 = services.create(services.request_response().max_nodes(2));
    assert!(sut_1.is_ok());

    let sut_2 = services.open(services.request_response());
    assert!(sut_2.is_ok());

    let sut_3 = services.open(services.request_response());
    assert_eq!(sut_3.err(), Some(RequestResponseOpenError::ExceedsMaxNumberOfNodes));
    drop(sut_2);
    services.nodes -= 1;

    let sut_3 = services.open(services.request_response());
    assert!(sut_3.is_ok());
}

#[test]
fn a_service_of_another_pattern_cannot_be_opened() {
    let builder = Builder::new(defaults(&Config::default()));
    let result = builder.verify_service_configuration(&MessagingPatternConfig::Event, true);
    assert_eq!(result.err(), Some(RequestResponseOpenError::IncompatibleMessagingPattern));

    let builder = Builder::new(defaults(&Config::default()));
    let result = builder.open(u64_type(), u64_type(), Ok(Some(MessagingPatternConfig::Event)));
    assert_eq!(result.err(), Some(RequestResponseOpenError::IncompatibleMessagingPattern));

    let builder = Builder::new(defaults(&Config::default()));
    let result = builder.create(u64_type(), u64_type(), Ok(Some(MessagingPatternConfig::Event)));
    assert_eq!(result.err(), Some(RequestResponseCreateError::AlreadyExists));
}

#[test]
fn what_is_wrong_with_a_service_is_named_for_open_and_create() {
    let cases = [
        (
            ServiceAvailabilityState::IncompatibleRequestType,
            RequestResponseOpenError::IncompatibleRequestType,
            RequestResponseCreateError::AlreadyExists,
        ),
        (
            ServiceAvailabilityState::IncompatibleResponseType,
            RequestResponseOpenError::IncompatibleResponseType,
            RequestResponseCreateError::AlreadyExists,
        ),
        (
            ServiceAvailabilityState::ServiceState(ServiceState::IncompatibleMessagingPattern),
            RequestResponseOpenError::IncompatibleMessagingPattern,
            RequestResponseCreateError::AlreadyExists,
        ),
        (
            ServiceAvailabilityState::ServiceState(ServiceState::InsufficientPermissions),
            RequestResponseOpenError::InsufficientPermissions,
            RequestResponseCreateError::InsufficientPermissions,
        ),
        (
            ServiceAvailabilityState::ServiceState(ServiceState::HangsInCreation),
            RequestResponseOpenError::HangsInCreation,
            RequestResponseCreateError::HangsInCreation,
        ),
        (
            ServiceAvailabilityState::ServiceState(ServiceState::Corrupted),
            RequestResponseOpenError::ServiceInCorruptedState,
            RequestResponseCreateError::ServiceInCorruptedState,
        ),
    ];
    for (state, open, create) in cases {
        assert_eq!(RequestResponseOpenError::from(state), open);
        assert_eq!(RequestResponseCreateError::from(state), create);
        assert_eq!(
            RequestResponseOpenOrCreateError::from(state),
            RequestResponseOpenOrCreateError::RequestResponseOpenError(open)
        );
        assert_eq!(create_impl(Err(state)), Err(create));
    }
    assert_eq!(create_impl(Ok(true)), Err(RequestResponseCreateError::AlreadyExists));
    assert_eq!(create_impl(Ok(false)), Ok(()));
    assert_eq!(
        RequestResponseOpenOrCreateError::from(RequestResponseCreateError::InternalFailure),
        RequestResponseOpenOrCreateError::RequestResponseCreateError(RequestResponseCreateError::InternalFailure)
    );
}

#[test]
fn storage_failures_are_named_for_create() {
    assert_eq!(
        static_storage_create_error(StaticStorageCreateError::AlreadyExists),
        RequestResponseCreateError::AlreadyExists
    );
    assert_eq!(
        static_storage_create_error(StaticStorageCreateError::Creation),
        RequestResponseCreateError::IsBeingCreatedByAnotherInstance
    );
    assert_eq!(
        static_storage_create_error(StaticStorageCreateError::InsufficientPermissions),
        RequestResponseCreateError::InsufficientPermissions
    );
    assert_eq!(
        static_storage_create_error(StaticStorageCreateError::Write),
        RequestResponseCreateError::InternalFailure
    );
    assert_eq!(
        dynamic_storage_create_error(DynamicStorageCreateError::AlreadyExists),
        RequestResponseCreateError::ServiceInCorruptedState
    );
    assert_eq!(
        dynamic_storage_create_error(DynamicStorageCreateError::InternalError),
        RequestResponseCreateError::InternalFailure
    );
}

#[test]
fn opening_the_dynamic_part_is_retried_a_few_times() {
    let failure = Err(OpenDynamicStorageFailure::DynamicStorageOpenError(DynamicStorageOpenError::InternalError));
    assert_eq!(open_impl(Ok(()), Ok(true), 0), OpenStep::Done);
    assert_eq!(
        open_impl(Err(OpenDynamicStorageFailure::IsMarkedForDestruction), Ok(true), 0),
        OpenStep::Fail(RequestResponseOpenError::IsMarkedForDestruction)
    );
    assert_eq!(
        open_impl(
            Err(OpenDynamicStorageFailure::DynamicStorageOpenError(DynamicStorageOpenError::DoesNotExist)),
            Ok(true),
            0
        ),
        OpenStep::Fail(RequestResponseOpenError::ServiceInCorruptedState)
    );
    assert_eq!(open_impl(failure, Ok(false), 0), OpenStep::Fail(RequestResponseOpenError::DoesNotExist));
    assert_eq!(
        open_impl(failure, Err(ServiceAvailabilityState::IncompatibleRequestType), 0),
        OpenStep::Fail(RequestResponseOpenError::IncompatibleRequestType)
    );
    let mut retries = 0;
    loop {
        match open_impl(failure, Ok(true), retries) {
            OpenStep::Retry(n) => retries = n,
            step => {
                assert_eq!(step, OpenStep::Fail(RequestResponseOpenError::ServiceInCorruptedState));
                break;
            }
        }
    }
    assert_eq!(retries, OPEN_RETRY_LIMIT);
}

#[test]
fn open_or_create_gives_up_when_the_system_is_in_flux() {
    assert_eq!(
        open_or_create_step(Attempt::Opened(Err(RequestResponseOpenError::DoesNotExist))),
        OpenOrCreateStep::Retry
    );
    assert_eq!(
        open_or_create_step(Attempt::Created(Err(RequestResponseCreateError::AlreadyExists))),
        OpenOrCreateStep::Retry
    );
    assert_eq!(
        open_or_create_step(Attempt::Created(Err(RequestResponseCreateError::IsBeingCreatedByAnotherInstance))),
        OpenOrCreateStep::Retry
    );
    assert_eq!(
        open_or_create_step(Attempt::Opened(Err(RequestResponseOpenError::HangsInCreation))),
        OpenOrCreateStep::Fail(RequestResponseOpenOrCreateError::RequestResponseOpenError(
            RequestResponseOpenError::HangsInCreation
        ))
    );
    assert_eq!(
        open_or_create_step(Attempt::Created(Err(RequestResponseCreateError::InternalFailure))),
        OpenOrCreateStep::Fail(RequestResponseOpenOrCreateError::RequestResponseCreateError(
            RequestResponseCreateError::InternalFailure
        ))
    );
    let mut rounds = 0;
    let mut retry_count = 0;
    loop {
        match open_or_create_impl(retry_count) {
            Ok(next) => {
                retry_count = next;
                rounds += 1;
            }
            Err(e) => {
                assert_eq!(e, RequestResponseOpenOrCreateError::SystemInFlux);
                break;
            }
        }
    }
    assert_eq!(rounds, RETRY_LIMIT + 1);
}
