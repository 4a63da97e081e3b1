use greeting::repository::{GreetingEntity, InMemoryGreetingRepository, RepoError};
use greeting::service::{Greeting, GreetingRepository, ServiceError, SinkError};

#[test]
fn store_then_all_returns_the_record() {
    let mut repo = InMemoryGreetingRepository::new();
    assert_eq!(repo.all().unwrap().len(), 0);
    let g = Greeting::new(
        String::from("r"),
        String::from("to"),
        String::from("from"),
        String::from("heading"),
        String::from("message"),
        9,
    );
    let id = g.id().clone();
    repo.store(g).unwrap();
    let all = repo.all().unwrap();
    assert_eq!(all.len(), 1);
    assert_eq!(all[0].id(), &id);
    assert_eq!(all[0].to(), "to");
    assert_eq!(all[0].created(), 9);
}

#[test]
fn all_keeps_insertion_order() {
    let mut repo = InMemoryGreetingRepository::new();
    for name in ["first", "second", "third"] {
        let g = Greeting::new(
            String::from("r"),
            String::from(name),
            String::from("f"),
            String::from("h"),
            String::from("m"),
            0,
        );
        repo.store(g).unwrap();
    }
    let all = repo.all().unwrap();
    assert_eq!(all[0].to(), "first");
    assert_eq!(all[1].to(), "second");
    assert_eq!(all[2].to(), "third");
}

#[test]
fn peek_topic_follows_the_liveness_flag() {
    let mut repo = InMemoryGreetingRepository::new();
    assert!(repo.peek_topic().is_ok());
    repo.set_live(false);
    let err = repo.peek_topic().err().unwrap();
    assert!(matches!(err, SinkError::Transport(_)));
    repo.set_live(true);
    assert!(repo.peek_topic().is_ok());
}

#[test]
fn entity_round_trips_record_fields() {
    let g = Greeting::new(
        String::from("corr"),
        String::from("to"),
        String::from("from"),
        String::from("heading"),
        String::from("message"),
        77,
    );
    let e = GreetingEntity::of_greeting(&g);
    assert_eq!(&e.id, g.id());
    assert_eq!(e.to, "to");
    assert_eq!(e.from, "from");
    assert_eq!(e.heading, "heading");
    assert_eq!(e.message, "message");
    assert_eq!(e.created, 77);

    let back = e.into_greeting();
    assert_eq!(back.id(), g.id());
    assert_eq!(back.to(), "to");
    assert_eq!(back.created(), 77);
    assert_eq!(back.external_reference(), "");
}

#[test]
fn entity_new_starts_unkeyed() {
    let e = GreetingEntity::new(
        String::from("a"),
        String::from("b"),
        String::from("c"),
        String::from("d"),
    );
    assert_eq!(e.id, "");
    assert_eq!(e.created, 0);
    assert_eq!(e.to, "a");
}

#[test]
fn sink_errors_surface_as_service_errors() {
    for e in [
        SinkError::Persistence(String::from("constraint violated")),
        SinkError::Transport(String::from("broker unreachable")),
        SinkError::Timeout(String::from("call ran out of time")),
    ] {
        assert!(matches!(e.into_service_error(), ServiceError::RepoError(_)));
    }
}

#[test]
fn repo_errors_surface_as_service_errors() {
    let e = RepoError::DbError(String::from("connection refused"));
    match e.into_service_error() {
        ServiceError::RepoError(d) => assert_eq!(d, "connection refused"),
    }
    let m = RepoError::DbMigrationError(String::from("migration failed"));
    assert!(matches!(m.into_service_error(), ServiceError::RepoError(_)));
}
