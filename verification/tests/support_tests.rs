use lexspan::support::{
    data_message, filter_and_transform, match_example, process_items, AppError, Config, Container,
    DelayedValue, Status, TypedId, UserId, Wrapper,
};
use lexspan::text::{i64_dec, u64_dec};

#[test]
fn test_container() {
    let mut container: Container<i32> = Container::new(10);
    assert!(container.push(1));
    assert!(container.push(2));
    assert_eq!(container.len(), 2);
    assert_eq!(container.pop(), Some(2));
}

#[test]
fn container_refuses_beyond_capacity() {
    let mut container: Container<u8> = Container::new(1);
    assert!(container.is_empty());
    assert!(container.push(7));
    assert!(!container.push(8));
    assert_eq!(container.len(), 1);
    assert_eq!(container.pop(), Some(7));
    assert_eq!(container.pop(), None);
}

#[test]
fn decimal_rendering_exact() {
    assert_eq!(u64_dec(0), "0");
    assert_eq!(u64_dec(7), "7");
    assert_eq!(u64_dec(12345), "12345");
    assert_eq!(u64_dec(1000000), "1000000");
    assert_eq!(i64_dec(-42), "-42");
    assert_eq!(i64_dec(42), "42");
    assert_eq!(i64_dec(i64::MIN), "-9223372036854775808");
}

#[test]
fn match_example_renders_each_case() {
    assert_eq!(match_example(Some(Ok(5))), "Positive: 5");
    assert_eq!(match_example(Some(Ok(0))), "Zero");
    assert_eq!(match_example(Some(Ok(-3))), "Negative: -3");
    assert_eq!(
        match_example(Some(Err(AppError::NotFound(String::from("user"))))),
        "Error: Not found: user"
    );
    assert_eq!(match_example(None), "None");
}

#[test]
fn error_messages_exact() {
    assert_eq!(
        AppError::InvalidInput {
            field: String::from("port"),
            reason: String::from("too large"),
        }
        .message(),
        "Invalid input for 'port': too large"
    );
    assert_eq!(
        AppError::NetworkError(String::from("timed out")).message(),
        "Network error: timed out"
    );
    assert_eq!(
        AppError::SerializationError(String::from("bad utf-8")).message(),
        "Serialization error: bad utf-8"
    );
}

#[test]
fn status_messages_exact() {
    assert_eq!(Status::Pending.message(), "Pending");
    assert_eq!(Status::Running { progress: 42 }.message(), "Running (42%)");
    assert_eq!(Status::Complete(String::from("done")).message(), "Complete: done");
    assert_eq!(
        Status::Failed { code: -7, message: String::from("boom") }.message(),
        "Failed [-7]: boom"
    );
}

#[test]
fn config_builder_defaults_and_overrides() {
    let config = Config::new("localhost");
    assert_eq!(config.host, "localhost");
    assert_eq!(config.port, 8080);
    assert_eq!(config.timeout_ms, 30_000);
    assert!(config.tags.is_empty());

    let config = Config::new("example").with_port(9090).with_timeout(5_000);
    assert_eq!(config.host, "example");
    assert_eq!(config.port, 9090);
    assert_eq!(config.timeout_ms, 5_000);
}

#[test]
fn wrapper_reads_and_writes() {
    let mut w = Wrapper::new(10u32);
    let doubled = w.read(|v: &u32| *v * 2);
    assert_eq!(doubled, 20);
    let prev = w.write(99);
    assert_eq!(prev, 10);
    assert_eq!(w.read(|v: &u32| *v), 99);
}

#[test]
fn typed_and_user_ids() {
    struct Order;
    let id: TypedId<Order> = TypedId::new(17);
    assert_eq!(id.value(), 17);

    let uid = UserId::new(String::from("alice"));
    assert_eq!(uid.as_str(), "alice");
}

#[test]
fn delayed_value_polls_twice() {
    let mut d = DelayedValue::new(5i32, 100);
    assert_eq!(d.poll_step(), None);
    assert_eq!(d.poll_step(), Some(5));
    assert_eq!(d.poll_step(), None);
}

#[test]
fn process_items_maps_in_order() {
    let out = process_items(vec![1i32, 2, 3], |x: i32| x * 10);
    assert_eq!(out, vec![10, 20, 30]);
    let empty: Vec<i32> = process_items(Vec::new(), |x: i32| x);
    assert!(empty.is_empty());
}

#[test]
fn filter_and_transform_keeps_matching_in_order() {
    let out = filter_and_transform(
        vec![1i32, 2, 3, 4, 5],
        |x: &i32| *x % 2 == 0,
        |x: i32| x + 100,
    );
    assert_eq!(out, vec![102, 104]);
}

#[test]
fn data_message_exact() {
    assert_eq!(data_message("https://example.test"), "Data from https://example.test");
}
