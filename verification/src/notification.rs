//! Notifications that a remote sends about a repository.

use dashmap::DashMap;
use vstd::prelude::*;
use vstd::string::*;

use crate::errors::ErrorKind;
use crate::registry::held_numbers;
use crate::registry::no_numbers;
use crate::registry::number_map_get;
use crate::registry::number_map_insert;
use crate::registry::number_map_new;
use crate::registry::number_of;
use crate::text::before_part;
use crate::text::law_prefix_is_found;
use crate::text::text_before;
use crate::types::BranchId;
use crate::types::ContentHash;
use crate::types::RepositoryId;

verus! {

/// Failure of a subscription.
#[derive(Debug)]
pub struct NotificationError {
    pub kind: ErrorKind,
    pub detail: String,
}

impl NotificationError {
    fn internal(detail: &str) -> (error: NotificationError)
        ensures
            error.kind == ErrorKind::Internal,
            error.detail@ == detail@,
    {
        NotificationError { kind: ErrorKind::Internal, detail: detail.to_owned() }
    }
}

/// Data for a notification that a branch received a new revision.
#[derive(Debug)]
pub struct LoreNotificationBranchPushedEventData {
    /// Hash of the pushed revision.
    pub revision: ContentHash,
    /// Sequence number of the pushed revision.
    pub revision_number: u64,
    /// Identifier of the branch that received the revision.
    pub branch: BranchId,
    /// Identifier of the user that pushed the revision.
    pub user_id: String,
}

/// Data for a notification that a branch was created.
#[derive(Clone, Copy, Debug)]
pub struct LoreNotificationBranchCreatedEventData {
    /// Identifier of the created branch.
    pub branch: BranchId,
}

/// Data for a notification that a branch was deleted.
#[derive(Clone, Copy, Debug)]
pub struct LoreNotificationBranchDeletedEventData {
    /// Identifier of the deleted branch.
    pub branch: BranchId,
}

/// Data for a notification that resources were locked.
#[derive(Debug)]
pub struct LoreNotificationResourceLockedEventData {
    /// Identifier of the user that locked the resources.
    pub user_id: String,
    /// Identifier of the branch the resources belong to.
    pub branch: BranchId,
    /// Paths of the locked resources.
    pub paths: Vec<String>,
}

/// Data for a notification that resources were unlocked.
#[derive(Debug)]
pub struct LoreNotificationResourceUnlockedEventData {
    /// Identifier of the user that unlocked the resources.
    pub user_id: String,
    /// Identifier of the branch the resources belong to.
    pub branch: BranchId,
    /// Paths of the unlocked resources.
    pub paths: Vec<String>,
}

/// Data for a notification carrying a text message.
#[derive(Debug)]
pub struct LoreNotificationTextEventData {
    /// Text content of the notification.
    pub text: String,
}

/// Data for a notification carrying binary content.
#[derive(Debug)]
pub struct LoreNotificationBinaryDataEventData {
    /// Binary content of the notification.
    pub data: Vec<u8>,
}

/// Data for a notification that a subscription to a repository was established.
#[derive(Clone, Copy, Debug)]
pub struct LoreNotificationSubscribedEventData {
    /// Identifier of the subscribed repository.
    pub repository: RepositoryId,
}

/// Data for a notification that a subscription to a repository was removed.
#[derive(Clone, Copy, Debug)]
pub struct LoreNotificationUnsubscribedEventData {
    /// Identifier of the unsubscribed repository.
    pub repository: RepositoryId,
}

// ---------------------------------------------------------------------------
// Subscriptions
// ---------------------------------------------------------------------------

/// The subscriptions that a map holds, each by the bytes of its repository.
pub uninterp spec fn held_subscriptions(map: DashMap<[u8; 16], u64>) -> Map<Seq<u8>, u64>;

/// No subscriptions at all.
pub open spec fn no_subscriptions() -> Map<Seq<u8>, u64> {
    Map::empty()
}

/// The value of a key, if a map has it.
pub open spec fn value_of(map: Map<Seq<u8>, u64>, key: Seq<u8>) -> Option<u64> {
    if map.contains_key(key) {
        Some(map[key])
    } else {
        None
    }
}

/// `DashMap::new` makes a map that holds nothing.
#[verifier::external_body]
fn subscription_map_new() -> (map: DashMap<[u8; 16], u64>)
    ensures
        held_subscriptions(map) == no_subscriptions(),
{
    DashMap::new()
}

/// `DashMap::contains_key` tells whether a map has a key.
#[verifier::external_body]
fn subscription_map_contains(map: &DashMap<[u8; 16], u64>, key: &[u8; 16]) -> (yes: bool)
    ensures
        yes == held_subscriptions(*map).contains_key(key@),
{
    map.contains_key(key)
}

/// `DashMap::insert` sets the value of a key, and returns the value that it had.
#[verifier::external_body]
fn subscription_map_insert(map: &mut DashMap<[u8; 16], u64>, key: [u8; 16], value: u64) -> (previous:
    Option<u64>)
    ensures
        held_subscriptions(*final(map)) == held_subscriptions(*old(map)).insert(key@, value),
        previous == value_of(held_subscriptions(*old(map)), key@),
{
    map.insert(key, value)
}

/// `DashMap::remove` takes a key and its value out of a map, and returns them.
#[verifier::external_body]
fn subscription_map_remove(map: &mut DashMap<[u8; 16], u64>, key: &[u8; 16]) -> (value: Option<u64>)
    ensures
        held_subscriptions(*final(map)) == held_subscriptions(*old(map)).remove(key@),
        value == value_of(held_subscriptions(*old(map)), key@),
{
    map.remove(key).map(|entry| entry.1)
}

/// The repositories that are subscribed to, each with the number of its
/// subscription.
pub struct NotificationSubscribers {
    subscriptions: DashMap<[u8; 16], u64>,
}

impl View for NotificationSubscribers {
    type V = Map<Seq<u8>, u64>;

    closed spec fn view(&self) -> Map<Seq<u8>, u64> {
        held_subscriptions(self.subscriptions)
    }
}

impl NotificationSubscribers {
    /// No subscriptions.
    pub fn new() -> (subscribers: NotificationSubscribers)
        ensures
            subscribers@ == no_subscriptions(),
    {
        NotificationSubscribers { subscriptions: subscription_map_new() }
    }

    /// Tells whether a repository is subscribed to.
    pub fn is_subscribed(&self, repository: RepositoryId) -> (yes: bool)
        ensures
            yes == self@.contains_key(repository.data@),
    {
        subscription_map_contains(&self.subscriptions, &repository.data)
    }

    /// Keeps the subscription to a repository. Returns the one that it replaces.
    pub fn subscribed(&mut self, repository: RepositoryId, subscription: u64) -> (previous: Option<
        u64,
    >)
        ensures
            final(self)@ == old(self)@.insert(repository.data@, subscription),
            previous == value_of(old(self)@, repository.data@),
    {
        subscription_map_insert(&mut self.subscriptions, repository.data, subscription)
    }

    /// Drops the subscription to a repository. Returns it, to be cancelled and
    /// waited for.
    pub fn unsubscribe(&mut self, repository: RepositoryId) -> (result: Result<
        u64,
        NotificationError,
    >)
        ensures
            final(self)@ == old(self)@.remove(repository.data@),
            result is Ok <==> old(self)@.contains_key(repository.data@),
            result matches Ok(subscription) ==> subscription == old(self)@[repository.data@],
            result matches Err(e) ==> e.kind == ErrorKind::Internal && e.detail@
                == "notifications not available when offline"@,
    {
        match subscription_map_remove(&mut self.subscriptions, &repository.data) {
            Some(subscription) => Ok(subscription),
            None => Err(NotificationError::internal("notifications not available when offline")),
        }
    }
}

// ---------------------------------------------------------------------------
// Services
// ---------------------------------------------------------------------------

/// The services that can make notification clients, each known by a number.
pub struct NotificationServices {
    services: DashMap<String, u64>,
}

impl View for NotificationServices {
    type V = Map<Seq<char>, u64>;

    closed spec fn view(&self) -> Map<Seq<char>, u64> {
        held_numbers(self.services)
    }
}

impl NotificationServices {
    /// No services.
    pub fn new() -> (services: NotificationServices)
        ensures
            services@ == no_numbers(),
    {
        NotificationServices { services: number_map_new() }
    }

    /// Registers a service under a name.
    pub fn register_notification_service(&mut self, id: &str, service: u64)
        ensures
            final(self)@ == old(self)@.insert(id@, service),
    {
        number_map_insert(&mut self.services, id.to_owned(), service);
    }

    /// The service for an endpoint: the one registered under the protocol of the
    /// endpoint.
    pub fn create_client(&self, endpoint: &str) -> (result: Result<u64, NotificationError>)
        ensures
            is_client_of(result, self@, endpoint@),
    {
        let name = text_before(endpoint, "://");
        match number_map_get(&self.services, name.as_str()) {
            Some(service) => Ok(service),
            None => Err(NotificationError::internal("notification service type not supported")),
        }
    }
}

/// The answer to an endpoint: the service registered under its protocol, or that
/// there is none.
pub open spec fn is_client_of(
    result: Result<u64, NotificationError>,
    services: Map<Seq<char>, u64>,
    endpoint: Seq<char>,
) -> bool {
    let service = number_of(services, before_part(endpoint, "://"@));
    match result {
        Ok(found) => service == Some(found),
        Err(e) => service is None && e.kind == ErrorKind::Internal && e.detail@
            == "notification service type not supported"@,
    }
}

/// How a subscription goes on.
#[derive(Clone, Copy, Debug, PartialEq, Eq, Structural)]
pub enum SubscribeStep {
    /// The repository is subscribed to.
    Done,
    /// The connection to the remote is needed.
    Connect,
}

/// Starts to subscribe to a repository. One that is subscribed to is left as it
/// is.
pub fn subscribe(subscribers: &NotificationSubscribers, repository: RepositoryId) -> (step:
    SubscribeStep)
    ensures
        step == if subscribers@.contains_key(repository.data@) {
            SubscribeStep::Done
        } else {
            SubscribeStep::Connect
        },
{
    if subscribers.is_subscribed(repository) {
        SubscribeStep::Done
    } else {
        SubscribeStep::Connect
    }
}

/// The service that makes the client for a subscription, given the endpoint of
/// the remote where there is a connection to it.
pub fn subscribe_service(services: &NotificationServices, endpoint: Option<&str>) -> (result: Result<
    u64,
    NotificationError,
>)
    ensures
        endpoint is Some ==> is_client_of(result, services@, endpoint->0@),
        endpoint is None ==> (result matches Err(e) && e.kind == ErrorKind::Internal && e.detail@
            == "notifications not available when offline"@),
{
    match endpoint {
        Some(endpoint) => services.create_client(endpoint),
        None => Err(NotificationError::internal("notifications not available when offline")),
    }
}

/// Unsubscribing undoes a subscription.
pub proof fn law_unsubscribing_undoes_subscribing(
    subscriptions: Map<Seq<u8>, u64>,
    repository: RepositoryId,
    subscription: u64,
)
    requires
        !subscriptions.contains_key(repository.data@),
    ensures
        subscriptions.insert(repository.data@, subscription).remove(repository.data@)
            == subscriptions,
        value_of(subscriptions.insert(repository.data@, subscription), repository.data@) == Some(
            subscription,
        ),
{
    assert(subscriptions.insert(repository.data@, subscription).remove(repository.data@)
        =~= subscriptions);
}

/// A service that is registered under a protocol is the one for its endpoints.
pub proof fn law_registered_service_is_found(
    services: Map<Seq<char>, u64>,
    protocol: Seq<char>,
    service: u64,
    rest: Seq<char>,
)
    requires
        forall|i: int| 0 <= i < protocol.len() ==> protocol[i] != ':',
    ensures
        number_of(
            services.insert(protocol, service),
            before_part(protocol + "://"@ + rest, "://"@),
        ) == Some(service),
{
    reveal_strlit("://");
    assert("://"@[0] == ':');
    law_prefix_is_found(protocol, "://"@, rest);
}

} // verus!
