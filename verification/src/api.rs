//! The HTTP-facing layer: payload validation, conversion to the domain
//! record, and the handler decision logic that maps outcomes to status
//! codes. The transport itself (routing, JSON, sockets) lives outside the
//! library and hands these functions plain values.

use vstd::prelude::*;

use crate::service::{
    Greeting, GreetingModel, GreetingRepository, GreetingService, GreetingServiceImpl,
    ServiceError,
};

verus! {

/// Upper bound, in characters, on the `to` field of a payload.
pub const TO_MAX_LEN: usize = 20;

/// Upper bound, in characters, on the `from` field of a payload.
pub const FROM_MAX_LEN: usize = 20;

/// Upper bound, in characters, on the `heading` field of a payload.
pub const HEADING_MAX_LEN: usize = 50;

/// Upper bound, in characters, on the `message` field of a payload.
pub const MESSAGE_MAX_LEN: usize = 50;

/// The bounded text fields of a payload.
#[derive(Clone, Copy, Debug, PartialEq, Eq, Structural)]
pub enum GreetingField {
    To,
    From,
    Heading,
    Message,
}

/// How a field violates its constraint: empty, or longer than its bound.
#[derive(Clone, Copy, Debug, PartialEq, Eq, Structural)]
pub enum ViolationKind {
    Empty,
    TooLong,
}

/// One offending field together with the constraint it violates.
#[derive(Clone, Copy, Debug, PartialEq, Eq, Structural)]
pub struct FieldViolation {
    pub field: GreetingField,
    pub kind: ViolationKind,
}

/// A failed validation: names each offending field and its constraint.
#[derive(Debug)]
pub struct ValidationError {
    pub violations: Vec<FieldViolation>,
}

/// Mathematical model of an inbound payload.
#[verifier::ext_equal]
pub ghost struct GreetingDtoView {
    pub external_reference: Seq<char>,
    pub to: Seq<char>,
    pub from: Seq<char>,
    pub heading: Seq<char>,
    pub message: Seq<char>,
    pub created: int,
}

/// The inbound payload: bounded text fields and a creation time in seconds
/// relative to the Unix epoch.
#[derive(Debug)]
pub struct GreetingDto {
    pub external_reference: String,
    pub to: String,
    pub from: String,
    pub heading: String,
    pub message: String,
    pub created: i64,
}

impl View for GreetingDto {
    type V = GreetingDtoView;

    open spec fn view(&self) -> GreetingDtoView {
        GreetingDtoView {
            external_reference: self.external_reference@,
            to: self.to@,
            from: self.from@,
            heading: self.heading@,
            message: self.message@,
            created: self.created as int,
        }
    }
}

/// A text field is acceptable iff it is non-empty and within its bound.
pub open spec fn text_field_ok(s: Seq<char>, max: int) -> bool {
    1 <= s.len() <= max
}

/// The violations one field contributes, in reporting order.
pub open spec fn field_violations(s: Seq<char>, max: int, field: GreetingField) -> Seq<
    FieldViolation,
> {
    if s.len() == 0 {
        seq![FieldViolation { field, kind: ViolationKind::Empty }]
    } else if s.len() > max {
        seq![FieldViolation { field, kind: ViolationKind::TooLong }]
    } else {
        Seq::empty()
    }
}

/// Every violation of a payload, reported field by field in declaration
/// order: `to`, `from`, `heading`, `message`.
pub open spec fn spec_violations(d: GreetingDtoView) -> Seq<FieldViolation> {
    field_violations(d.to, TO_MAX_LEN as int, GreetingField::To) + field_violations(
        d.from,
        FROM_MAX_LEN as int,
        GreetingField::From,
    ) + field_violations(d.heading, HEADING_MAX_LEN as int, GreetingField::Heading)
        + field_violations(d.message, MESSAGE_MAX_LEN as int, GreetingField::Message)
}

/// A payload is valid iff every bounded text field is non-empty and within
/// its bound.
pub open spec fn payload_valid(d: GreetingDtoView) -> bool {
    &&& text_field_ok(d.to, TO_MAX_LEN as int)
    &&& text_field_ok(d.from, FROM_MAX_LEN as int)
    &&& text_field_ok(d.heading, HEADING_MAX_LEN as int)
    &&& text_field_ok(d.message, MESSAGE_MAX_LEN as int)
}

/// Checks one field, appending its violation, if any, to the report.
fn check_field(s: &String, max: usize, field: GreetingField, out: &mut Vec<FieldViolation>)
    ensures
        final(out)@ == old(out)@ + field_violations(s@, max as int, field),
{
    let len = s.as_str().unicode_len();
    if len == 0 {
        out.push(FieldViolation { field, kind: ViolationKind::Empty });
    } else if len > max {
        out.push(FieldViolation { field, kind: ViolationKind::TooLong });
    }
    proof {
        assert(out@ =~= old(out)@ + field_violations(s@, max as int, field));
    }
}

impl GreetingDto {
    /// Checks each text field against its declared bounds. Succeeds iff the
    /// payload is valid; otherwise reports exactly the offending fields, in
    /// declaration order, each with the constraint it violates.
    pub fn validate(&self) -> (r: Result<(), ValidationError>)
        ensures
            r is Ok <==> payload_valid(self@),
            r matches Err(e) ==> e.violations@ == spec_violations(self@),
    {
        let mut violations: Vec<FieldViolation> = Vec::new();
        check_field(&self.to, TO_MAX_LEN, GreetingField::To, &mut violations);
        check_field(&self.from, FROM_MAX_LEN, GreetingField::From, &mut violations);
        check_field(&self.heading, HEADING_MAX_LEN, GreetingField::Heading, &mut violations);
        check_field(&self.message, MESSAGE_MAX_LEN, GreetingField::Message, &mut violations);
        proof {
            assert(violations@ =~= spec_violations(self@));
        }
        if violations.len() == 0 {
            proof {
                assert(spec_violations(self@).len() == 0);
            }
            Ok(())
        } else {
            Err(ValidationError { violations })
        }
    }

    /// The payload a stored record reads back as.
    pub fn of_greeting(g: &Greeting) -> (d: GreetingDto)
        ensures
            d@ == dto_of_model(g@),
    {
        GreetingDto {
            external_reference: g.external_reference().clone(),
            to: g.to().clone(),
            from: g.from().clone(),
            heading: g.heading().clone(),
            message: g.message().clone(),
            created: g.created(),
        }
    }
}

/// The payload carrying exactly the fields of a stored record.
pub open spec fn dto_of_model(g: GreetingModel) -> GreetingDtoView {
    GreetingDtoView {
        external_reference: g.external_reference,
        to: g.to,
        from: g.from,
        heading: g.heading,
        message: g.message,
        created: g.created,
    }
}

/// The record a valid payload converts to, given the generated identifier.
pub open spec fn greeting_of_dto(d: GreetingDtoView, id: Seq<char>) -> GreetingModel {
    GreetingModel {
        external_reference: d.external_reference,
        id: id,
        to: d.to,
        from: d.from,
        heading: d.heading,
        message: d.message,
        created: d.created,
        events_created: Map::empty(),
    }
}

/// What a request can fail with: a client error carrying the validation
/// detail, or a server error carrying the backend detail.
#[derive(Debug)]
pub enum ApiError {
    BadClientData(ValidationError),
    ApplicationError(ServiceError),
    Applicationerror,
}

impl ApiError {
    /// The HTTP status code each error maps to.
    pub open spec fn spec_status_code(&self) -> int {
        match self {
            ApiError::BadClientData(_) => 400,
            ApiError::ApplicationError(_) => 500,
            ApiError::Applicationerror => 500,
        }
    }

    /// Client errors map to 400 Bad Request; everything else is a 500.
    pub fn status_code(&self) -> (c: u16)
        ensures
            c == self.spec_status_code(),
    {
        match self {
            ApiError::BadClientData(_) => 400,
            ApiError::ApplicationError(_) => 500,
            ApiError::Applicationerror => 500,
        }
    }
}

/// The store endpoint: validates the payload, converts it into a domain
/// record and hands that to the service. An invalid payload is rejected
/// before any record is constructed and nothing is stored; a valid one is
/// stored unless the backend is unreachable, and the generated identifier
/// is returned.
pub fn greet<S: GreetingService>(data: &mut S, greeting: GreetingDto) -> (r: Result<
    String,
    ApiError,
>)
    ensures
        !payload_valid(greeting@) ==> {
            &&& r matches Err(ApiError::BadClientData(e)) && e.violations@ == spec_violations(
                greeting@,
            )
            &&& final(data).contents() == old(data).contents()
        },
        payload_valid(greeting@) ==> match r {
            Ok(id) => {
                &&& id@.len() == 36
                &&& final(data).contents() == old(data).contents().push(
                    greeting_of_dto(greeting@, id@),
                )
            },
            Err(e) => {
                &&& e is ApplicationError
                &&& final(data).contents() == old(data).contents()
                &&& !old(data).live()
            },
        },
        final(data).live() == old(data).live(),
{
    if let Err(e) = greeting.validate() {
        return Err(ApiError::BadClientData(e));
    }
    let g = Greeting::new(
        greeting.external_reference,
        greeting.to,
        greeting.from,
        greeting.heading,
        greeting.message,
        greeting.created,
    );
    let id = g.id().clone();
    proof {
        assert(g@ =~= greeting_of_dto(greeting@, id@));
    }
    match data.receive_greeting(g) {
        Ok(()) => Ok(id),
        Err(e) => Err(ApiError::ApplicationError(e)),
    }
}

/// The list endpoint: every stored record, as payloads, in the order the
/// sink reports them.
pub fn list_greetings<C: GreetingRepository>(data: &GreetingServiceImpl<C>) -> (r: Result<
    Vec<GreetingDto>,
    ApiError,
>)
    ensures
        r matches Ok(ds) ==> ds@.map_values(|d: GreetingDto| d@) == data.contents().map_values(
            |g: GreetingModel| dto_of_model(g),
        ),
        r matches Err(e) ==> e is ApplicationError && !data.live(),
{
    let greetings = match data.all_greetings() {
        Ok(v) => v,
        Err(e) => {
            return Err(ApiError::ApplicationError(e));
        },
    };
    let mut out: Vec<GreetingDto> = Vec::new();
    let mut i: usize = 0;
    while i < greetings.len()
        invariant
            i <= greetings.len(),
            out@.len() == i,
            forall|j: int| 0 <= j < i ==> out@[j]@ == dto_of_model(greetings@[j]@),
        decreases greetings.len() - i,
    {
        out.push(GreetingDto::of_greeting(&greetings[i]));
        i += 1;
    }
    proof {
        assert(out@.map_values(|d: GreetingDto| d@) =~= crate::service::greetings_view(
            greetings@,
        ).map_values(|g: GreetingModel| dto_of_model(g)));
    }
    Ok(out)
}

/// The liveness endpoint: 200 exactly when the backend is reachable, 500
/// otherwise; never touches the stored records.
pub fn health<S: GreetingService>(data: &mut S) -> (status: u16)
    ensures
        status == 200 <==> old(data).live(),
        status == 200 || status == 500,
        final(data).contents() == old(data).contents(),
        final(data).live() == old(data).live(),
{
    match data.check_liveness() {
        Ok(()) => 200,
        Err(_) => 500,
    }
}

/// A service stub: accepts every greeting without storing it anywhere. Its
/// contents are tracked only in ghost state, so it reports every greeting
/// as accepted while owning no storage.
pub struct GreetingSvcStub {
    stored: Ghost<Seq<GreetingModel>>,
}

impl GreetingSvcStub {
    pub fn new() -> (r: GreetingSvcStub)
        ensures
            r.contents() == Seq::<GreetingModel>::empty(),
            r.live(),
    {
        GreetingSvcStub { stored: Ghost(Seq::empty()) }
    }
}

impl GreetingService for GreetingSvcStub {
    closed spec fn contents(&self) -> Seq<GreetingModel> {
        self.stored@
    }

    closed spec fn live(&self) -> bool {
        true
    }

    fn receive_greeting(&mut self, greeting: Greeting) -> (r: Result<(), ServiceError>) {
        proof {
            self.stored@ = self.stored@.push(greeting@);
        }
        Ok(())
    }

    fn check_liveness(&mut self) -> (r: Result<(), ServiceError>) {
        Ok(())
    }
}

} // verus!
