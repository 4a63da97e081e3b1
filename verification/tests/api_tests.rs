use greeting::api::{
    greet, health, list_greetings, ApiError, GreetingDto, GreetingField, GreetingSvcStub,
    ViolationKind,
};
use greeting::repository::InMemoryGreetingRepository;
use greeting::service::{GreetingService, GreetingServiceImpl};

fn dto(to: &str, from: &str, heading: &str, message: &str) -> GreetingDto {
    GreetingDto {
        external_reference: String::from("ref-1"),
        to: String::from(to),
        from: String::from(from),
        heading: String::from(heading),
        message: String::from(message),
        created: 0,
    }
}

#[test]
fn test_store_greeting() {
    let mut data = GreetingSvcStub::new();
    let resp = greet(
        &mut data,
        dto("test", "testa", "Merry Christmas", "Happy new year"),
    );
    assert!(resp.is_ok());
}

#[test]
fn test_invalid_greeting() {
    let mut data = GreetingSvcStub::new();
    let resp = greet(
        &mut data,
        dto(
            "testtesttesttesttesttesttesttest",
            "testa",
            "Merry Christmas",
            "Happy new year",
        ),
    );
    assert!(resp.is_err());
    let err = resp.err().unwrap();
    assert_eq!(err.status_code(), 400);
    println!("{:?}", err);
}

#[test]
fn validate_accepts_bounds() {
    // exactly at the bounds: 20/20/50/50 characters, all non-empty
    let d = dto(
        &"t".repeat(20),
        &"f".repeat(20),
        &"h".repeat(50),
        &"m".repeat(50),
    );
    assert!(d.validate().is_ok());
    assert!(dto("a", "b", "c", "d").validate().is_ok());
}

#[test]
fn validate_names_each_offending_field() {
    let d = dto("", &"f".repeat(21), "", &"m".repeat(51));
    let e = d.validate().err().unwrap();
    let v = &e.violations;
    assert_eq!(v.len(), 4);
    assert_eq!(v[0].field, GreetingField::To);
    assert_eq!(v[0].kind, ViolationKind::Empty);
    assert_eq!(v[1].field, GreetingField::From);
    assert_eq!(v[1].kind, ViolationKind::TooLong);
    assert_eq!(v[2].field, GreetingField::Heading);
    assert_eq!(v[2].kind, ViolationKind::Empty);
    assert_eq!(v[3].field, GreetingField::Message);
    assert_eq!(v[3].kind, ViolationKind::TooLong);
}

#[test]
fn long_to_field_is_rejected_and_named() {
    // a 34-character `to` against the 20-character bound
    let mut data = GreetingSvcStub::new();
    let resp = greet(
        &mut data,
        dto(&"x".repeat(34), "testa", "Merry Christmas", "Happy new year"),
    );
    match resp {
        Err(ApiError::BadClientData(e)) => {
            assert_eq!(e.violations.len(), 1);
            assert_eq!(e.violations[0].field, GreetingField::To);
            assert_eq!(e.violations[0].kind, ViolationKind::TooLong);
        }
        _ => panic!("expected a client error naming the to field"),
    }
}

#[test]
fn invalid_payload_stores_nothing() {
    let mut data = GreetingServiceImpl::new(InMemoryGreetingRepository::new());
    let resp = greet(&mut data, dto("", "", "", ""));
    assert!(resp.is_err());
    let all = data.all_greetings().unwrap();
    assert_eq!(all.len(), 0);
}

#[test]
fn stored_greeting_is_listed() {
    // store, then read back: the list holds the record with the submitted
    // fields and the returned message id
    let mut data = GreetingServiceImpl::new(InMemoryGreetingRepository::new());
    let id = greet(
        &mut data,
        dto("test", "testa", "Merry Christmas", "Happy new year"),
    )
    .unwrap();
    assert!(!id.is_empty());
    let listed = list_greetings(&data).unwrap();
    assert_eq!(listed.len(), 1);
    assert_eq!(listed[0].to, "test");
    assert_eq!(listed[0].from, "testa");
    assert_eq!(listed[0].heading, "Merry Christmas");
    assert_eq!(listed[0].message, "Happy new year");
    let all = data.all_greetings().unwrap();
    assert_eq!(all[0].id(), &id);
}

#[test]
fn two_stores_of_equal_content_give_two_records() {
    let mut data = GreetingServiceImpl::new(InMemoryGreetingRepository::new());
    greet(&mut data, dto("a", "b", "c", "d")).unwrap();
    greet(&mut data, dto("a", "b", "c", "d")).unwrap();
    greet(&mut data, dto("e", "b", "c", "d")).unwrap();
    let all = data.all_greetings().unwrap();
    assert_eq!(all.len(), 3);
    let matching = all
        .iter()
        .filter(|g| g.to() == "a" && g.from() == "b" && g.heading() == "c" && g.message() == "d")
        .count();
    assert_eq!(matching, 2);
}

#[test]
fn stored_records_have_distinct_ids() {
    let mut data = GreetingServiceImpl::new(InMemoryGreetingRepository::new());
    let mut ids: Vec<String> = Vec::new();
    for i in 0..5 {
        let id = greet(&mut data, dto("to", "from", "head", &format!("m{}", i))).unwrap();
        assert!(!id.is_empty());
        ids.push(id);
    }
    for i in 0..ids.len() {
        for j in 0..ids.len() {
            if i != j {
                assert_ne!(ids[i], ids[j]);
            }
        }
    }
}

#[test]
fn health_reflects_backend_liveness() {
    let mut repo = InMemoryGreetingRepository::new();
    repo.set_live(false);
    let mut down = GreetingServiceImpl::new(repo);
    assert_eq!(health(&mut down), 500);

    let mut up = GreetingServiceImpl::new(InMemoryGreetingRepository::new());
    assert_eq!(health(&mut up), 200);
}

#[test]
fn status_codes_by_error() {
    let v = dto("", "b", "c", "d").validate().err().unwrap();
    assert_eq!(ApiError::BadClientData(v).status_code(), 400);
    assert_eq!(
        ApiError::ApplicationError(greeting::service::ServiceError::RepoError(String::from(
            "down"
        )))
        .status_code(),
        500
    );
    assert_eq!(ApiError::Applicationerror.status_code(), 500);
}
