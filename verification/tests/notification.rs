use lore_revision::errors::ErrorKind;
use lore_revision::notification::subscribe;
use lore_revision::notification::subscribe_service;
use lore_revision::notification::NotificationServices;
use lore_revision::notification::NotificationSubscribers;
use lore_revision::notification::SubscribeStep;
use lore_revision::types::Context;

#[test]
fn subscription_is_kept_until_unsubscribed() {
    let first = Context::new([1; 16]);
    let second = Context::new([2; 16]);
    let mut subscribers = NotificationSubscribers::new();
    assert_eq!(subscribe(&subscribers, first), SubscribeStep::Connect);
    assert_eq!(subscribers.subscribed(first, 10), None);
    assert_eq!(subscribe(&subscribers, first), SubscribeStep::Done);
    assert_eq!(subscribe(&subscribers, second), SubscribeStep::Connect);
    assert_eq!(subscribers.subscribed(first, 11), Some(10));
    assert_eq!(subscribers.unsubscribe(first).unwrap(), 11);
    assert!(!subscribers.is_subscribed(first));
    let error = subscribers.unsubscribe(first).unwrap_err();
    assert_eq!(error.kind, ErrorKind::Internal);
    assert_eq!(error.detail, "notifications not available when offline");
}

#[test]
fn service_is_chosen_by_protocol() {
    let mut services = NotificationServices::new();
    services.register_notification_service("lores", 1);
    services.register_notification_service("nats", 2);
    assert_eq!(services.create_client("nats://host:4222").unwrap(), 2);
    assert_eq!(services.create_client("lores://a://b").unwrap(), 1);
    assert_eq!(services.create_client("lores").unwrap(), 1);
    assert_eq!(
        services.create_client("http://host").unwrap_err().detail,
        "notification service type not supported"
    );
    services.register_notification_service("nats", 3);
    assert_eq!(
        subscribe_service(&services, Some("nats://host")).unwrap(),
        3
    );
    assert_eq!(
        subscribe_service(&services, None).unwrap_err().detail,
        "notifications not available when offline"
    );
}
