use greeting::repository::InMemoryGreetingRepository;
use greeting::service::{Greeting, GreetingService, GreetingServiceImpl};

#[test]
fn test_receive_greeting() {
    let mock_repo = InMemoryGreetingRepository::new();
    let mut service = GreetingServiceImpl::new(mock_repo);

    let greeting = Greeting::new(
        String::from("test_id"),
        String::from("John"),
        String::from("Jane"),
        String::from("Hello"),
        String::from("Hi John!"),
        0,
    );

    let result = service.receive_greeting(greeting.clone());
    assert!(result.is_ok());
}

#[test]
fn check_liveness() {
    let mock_repo = InMemoryGreetingRepository::new();
    let mut service = GreetingServiceImpl::new(mock_repo);

    let result = service.check_liveness();
    assert!(result.is_ok());
}

#[test]
fn greeting_carries_its_fields() {
    let g = Greeting::new(
        String::from("corr-7"),
        String::from("John"),
        String::from("Jane"),
        String::from("Hello"),
        String::from("Hi John!"),
        1700000000,
    );
    assert_eq!(g.external_reference(), "corr-7");
    assert_eq!(g.to(), "John");
    assert_eq!(g.from(), "Jane");
    assert_eq!(g.heading(), "Hello");
    assert_eq!(g.message(), "Hi John!");
    assert_eq!(g.created(), 1700000000);
    assert_eq!(g.id().chars().count(), 36);
}

#[test]
fn clone_preserves_every_field() {
    let mut g = Greeting::new(
        String::from("r"),
        String::from("a"),
        String::from("b"),
        String::from("c"),
        String::from("d"),
        42,
    );
    g.add_event("created");
    let c = g.clone();
    assert_eq!(c.id(), g.id());
    assert_eq!(c.to(), g.to());
    assert_eq!(c.created(), g.created());
    assert!(c.has_event(&String::from("created")));
}

#[test]
fn add_event_records_the_event() {
    let mut g = Greeting::new(
        String::from("r"),
        String::from("a"),
        String::from("b"),
        String::from("c"),
        String::from("d"),
        0,
    );
    assert!(!g.has_event(&String::from("received")));
    g.add_event("received");
    assert!(g.has_event(&String::from("received")));
    assert!(!g.has_event(&String::from("sent")));
    g.add_event("received");
    assert!(g.has_event(&String::from("received")));
}
