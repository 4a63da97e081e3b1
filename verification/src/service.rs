//! The greeting domain record, the sink and service interfaces, and the
//! ingest service that mediates between the two.

use vstd::prelude::*;

verus! {

/// Mathematical model of a greeting: every contract about greetings is
/// stated over this type.
#[verifier::ext_equal]
pub ghost struct GreetingModel {
    /// Caller-supplied correlation id.
    pub external_reference: Seq<char>,
    /// Server-generated identifier, assigned exactly once at construction.
    pub id: Seq<char>,
    pub to: Seq<char>,
    pub from: Seq<char>,
    pub heading: Seq<char>,
    pub message: Seq<char>,
    /// Creation time as seconds relative to the Unix epoch, UTC.
    pub created: int,
    /// Lifecycle events: event name to the time it was recorded.
    pub events_created: Map<Seq<char>, int>,
}

/// The contents of an event log, read as a map: a later entry for the same
/// name replaces an earlier one.
pub open spec fn events_map(s: Seq<(String, i64)>) -> Map<Seq<char>, int>
    decreases s.len(),
{
    if s.len() == 0 {
        Map::empty()
    } else {
        events_map(s.drop_last()).insert(s.last().0@, s.last().1 as int)
    }
}

/// A greeting: an immutable business fact once created, except for
/// appends to its event log.
#[derive(Debug)]
pub struct Greeting {
    external_reference: String,
    id: String,
    to: String,
    from: String,
    heading: String,
    message: String,
    created: i64,
    events_created: Vec<(String, i64)>,
}

impl View for Greeting {
    type V = GreetingModel;

    closed spec fn view(&self) -> GreetingModel {
        GreetingModel {
            external_reference: self.external_reference@,
            id: self.id@,
            to: self.to@,
            from: self.from@,
            heading: self.heading@,
            message: self.message@,
            created: self.created as int,
            events_created: events_map(self.events_created@),
        }
    }
}

/// Relies on `uuid::Uuid::now_v7` and uuid's `From<Uuid> for String`:
/// the hyphenated text form of a UUID is exactly 36 characters.
/// Nothing further is assumed of the value: it depends on the clock.
#[verifier::external_body]
fn fresh_greeting_id() -> (r: String)
    ensures
        r@.len() == 36,
{
    String::from(uuid::Uuid::now_v7())
}

impl Greeting {
    /// Constructs a greeting from validated payload fields. The identifier
    /// is generated here and never changes afterwards; it is always
    /// non-empty (36 characters).
    pub fn new(
        external_reference: String,
        to: String,
        from: String,
        heading: String,
        message: String,
        time: i64,
    ) -> (g: Greeting)
        ensures
            g@.external_reference == external_reference@,
            g@.id.len() == 36,
            g@.to == to@,
            g@.from == from@,
            g@.heading == heading@,
            g@.message == message@,
            g@.created == time as int,
            g@.events_created == Map::<Seq<char>, int>::empty(),
    {
        Greeting {
            external_reference,
            id: fresh_greeting_id(),
            to,
            from,
            heading,
            message,
            created: time,
            events_created: Vec::new(),
        }
    }

    /// Builds a greeting with every field given, including the identifier.
    /// Used when a record comes back from a storage backend that already
    /// assigned it an identifier.
    pub(crate) fn with_id(
        external_reference: String,
        id: String,
        to: String,
        from: String,
        heading: String,
        message: String,
        time: i64,
    ) -> (g: Greeting)
        ensures
            g@ == (GreetingModel {
                external_reference: external_reference@,
                id: id@,
                to: to@,
                from: from@,
                heading: heading@,
                message: message@,
                created: time as int,
                events_created: Map::<Seq<char>, int>::empty(),
            }),
    {
        let g = Greeting {
            external_reference,
            id,
            to,
            from,
            heading,
            message,
            created: time,
            events_created: Vec::new(),
        };
        proof {
            assert(g@.events_created =~= Map::<Seq<char>, int>::empty());
            assert(g@ =~= GreetingModel {
                external_reference: g@.external_reference,
                id: g@.id,
                to: g@.to,
                from: g@.from,
                heading: g@.heading,
                message: g@.message,
                created: g@.created,
                events_created: g@.events_created,
            });
        }
        g
    }

    /// Records a lifecycle event under the given name. As in the event map
    /// of a fresh record, the recorded time is the epoch origin.
    pub fn add_event(&mut self, event: &str)
        ensures
            final(self)@ == (GreetingModel {
                events_created: old(self)@.events_created.insert(event@, 0),
                ..old(self)@
            }),
    {
        self.events_created.push((event.to_owned(), 0i64));
        proof {
            assert(self.events_created@.drop_last() =~= old(self).events_created@);
        }
    }

    /// True iff an event of the given name has been recorded.
    pub fn has_event(&self, event: &String) -> (r: bool)
        ensures
            r == self@.events_created.dom().contains(event@),
    {
        let mut i: usize = 0;
        let mut found = false;
        while i < self.events_created.len()
            invariant
                i <= self.events_created.len(),
                found == events_map(self.events_created@.subrange(0, i as int)).dom().contains(
                    event@,
                ),
            decreases self.events_created.len() - i,
        {
            proof {
                assert(self.events_created@.subrange(0, i + 1 as int).drop_last() =~= self
                    .events_created@.subrange(0, i as int));
            }
            if self.events_created[i].0 == *event {
                found = true;
            }
            i += 1;
        }
        proof {
            assert(self.events_created@.subrange(0, self.events_created@.len() as int) =~= self
                .events_created@);
        }
        found
    }

    pub fn external_reference(&self) -> (r: &String)
        ensures
            r@ == self@.external_reference,
    {
        &self.external_reference
    }

    pub fn id(&self) -> (r: &String)
        ensures
            r@ == self@.id,
    {
        &self.id
    }

    pub fn to(&self) -> (r: &String)
        ensures
            r@ == self@.to,
    {
        &self.to
    }

    pub fn from(&self) -> (r: &String)
        ensures
            r@ == self@.from,
    {
        &self.from
    }

    pub fn heading(&self) -> (r: &String)
        ensures
            r@ == self@.heading,
    {
        &self.heading
    }

    pub fn message(&self) -> (r: &String)
        ensures
            r@ == self@.message,
    {
        &self.message
    }

    pub fn created(&self) -> (r: i64)
        ensures
            r as int == self@.created,
    {
        self.created
    }
}

impl Greeting {
    /// A copy of the event log, entry for entry.
    pub(crate) fn events_cloned(&self) -> (r: Vec<(String, i64)>)
        ensures
            events_map(r@) == self@.events_created,
    {
        let mut events: Vec<(String, i64)> = Vec::new();
        let mut i: usize = 0;
        while i < self.events_created.len()
            invariant
                i <= self.events_created.len(),
                events@ =~= self.events_created@.subrange(0, i as int),
            decreases self.events_created.len() - i,
        {
            let name = self.events_created[i].0.clone();
            let time = self.events_created[i].1;
            events.push((name, time));
            i += 1;
        }
        proof {
            assert(events@ =~= self.events_created@);
        }
        events
    }
}

impl Clone for Greeting {
    /// Cloning preserves the model exactly.
    fn clone(&self) -> (r: Self)
        ensures
            r@ == self@,
    {
        let events = self.events_cloned();
        Greeting {
            external_reference: self.external_reference.clone(),
            id: self.id.clone(),
            to: self.to.clone(),
            from: self.from.clone(),
            heading: self.heading.clone(),
            message: self.message.clone(),
            created: self.created,
            events_created: events,
        }
    }
}

/// How a sink fails: a refused statement or constraint, an unreachable
/// backend, or a backend call that ran out of time. Each carries its
/// detail text.
#[derive(Debug)]
pub enum SinkError {
    Persistence(String),
    Transport(String),
    Timeout(String),
}

impl SinkError {
    /// The detail text the error carries.
    pub open spec fn spec_detail(&self) -> Seq<char> {
        match self {
            SinkError::Persistence(d) => d@,
            SinkError::Transport(d) => d@,
            SinkError::Timeout(d) => d@,
        }
    }

    /// The service-level error this sink error surfaces as.
    pub fn into_service_error(self) -> (r: ServiceError)
        ensures
            r matches ServiceError::RepoError(d) && d@ == self.spec_detail(),
    {
        match self {
            SinkError::Persistence(d) => ServiceError::RepoError(d),
            SinkError::Transport(d) => ServiceError::RepoError(d),
            SinkError::Timeout(d) => ServiceError::RepoError(d),
        }
    }
}

/// Error surfaced to the service layer when a storage backend fails.
#[derive(Debug)]
pub enum ServiceError {
    RepoError(String),
}

/// The models of a sequence of greeting records.
pub open spec fn greetings_view(s: Seq<Greeting>) -> Seq<GreetingModel> {
    s.map_values(|g: Greeting| g@)
}

/// A sink: any backend capable of durably storing or forwarding greetings.
///
/// `contents()` is the mathematical sequence of records the sink holds, in
/// insertion order; `live()` says whether the backend is reachable. A sink
/// may refuse an operation only while the backend is unreachable, and no
/// operation ever loses or rewrites a stored record.
///
/// The two spec functions carry defaults only so that unverified sinks
/// outside the library can implement the trait; every sink verified here
/// gives its own.
pub trait GreetingRepository: Sized {
    open spec fn contents(&self) -> Seq<GreetingModel> {
        Seq::empty()
    }

    open spec fn live(&self) -> bool {
        true
    }

    /// Durably records one greeting at the end of the sink's contents.
    fn store(&mut self, greeting: Greeting) -> (r: Result<(), SinkError>)
        ensures
            r is Ok ==> final(self).contents() == old(self).contents().push(greeting@),
            r is Err ==> final(self).contents() == old(self).contents() && !old(self).live(),
            final(self).live() == old(self).live(),
    ;

    /// Returns every stored record, in insertion order.
    fn all(&self) -> (r: Result<Vec<Greeting>, SinkError>)
        ensures
            r matches Ok(v) ==> greetings_view(v@) == self.contents(),
            r is Err ==> !self.live(),
    ;

    /// Probes backend reachability without mutating state.
    fn peek_topic(&mut self) -> (r: Result<(), SinkError>)
        ensures
            final(self).contents() == old(self).contents(),
            final(self).live() == old(self).live(),
            r is Ok <==> old(self).live(),
    ;
}

/// The service boundary the HTTP layer talks to.
///
/// As for the sink, the spec functions carry defaults only for the sake
/// of unverified implementations outside the library.
pub trait GreetingService: Sized {
    open spec fn contents(&self) -> Seq<GreetingModel> {
        Seq::empty()
    }

    open spec fn live(&self) -> bool {
        true
    }

    /// Accepts one greeting and hands it to the backing sink.
    fn receive_greeting(&mut self, greeting: Greeting) -> (r: Result<(), ServiceError>)
        ensures
            r is Ok ==> final(self).contents() == old(self).contents().push(greeting@),
            r is Err ==> final(self).contents() == old(self).contents() && !old(self).live(),
            final(self).live() == old(self).live(),
    ;

    /// Succeeds exactly when the backend is reachable.
    fn check_liveness(&mut self) -> (r: Result<(), ServiceError>)
        ensures
            final(self).contents() == old(self).contents(),
            final(self).live() == old(self).live(),
            r is Ok <==> old(self).live(),
    ;
}

/// The ingest service: owns no state of its own and forwards every
/// operation to its repository unchanged.
pub struct GreetingServiceImpl<C> {
    repo: C,
}

impl<C: GreetingRepository> GreetingServiceImpl<C> {
    pub fn new(repo: C) -> (result: GreetingServiceImpl<C>)
        ensures
            result.contents() == repo.contents(),
            result.live() == repo.live(),
    {
        GreetingServiceImpl { repo }
    }

    /// Returns every record the backing sink holds, in insertion order;
    /// a sink failure is wrapped for the HTTP layer.
    pub fn all_greetings(&self) -> (r: Result<Vec<Greeting>, ServiceError>)
        ensures
            r matches Ok(v) ==> greetings_view(v@) == self.contents(),
            r is Err ==> !self.live(),
    {
        match self.repo.all() {
            Ok(v) => Ok(v),
            Err(e) => Err(e.into_service_error()),
        }
    }
}

impl<C: GreetingRepository> GreetingService for GreetingServiceImpl<C> {
    closed spec fn contents(&self) -> Seq<GreetingModel> {
        self.repo.contents()
    }

    closed spec fn live(&self) -> bool {
        self.repo.live()
    }

    fn receive_greeting(&mut self, greeting: Greeting) -> (r: Result<(), ServiceError>) {
        match self.repo.store(greeting) {
            Ok(()) => Ok(()),
            Err(e) => Err(e.into_service_error()),
        }
    }

    fn check_liveness(&mut self) -> (r: Result<(), ServiceError>) {
        match self.repo.peek_topic() {
            Ok(()) => Ok(()),
            Err(e) => Err(e.into_service_error()),
        }
    }
}

/// True iff the record carries exactly these payload fields.
pub open spec fn matches_fields(
    g: GreetingModel,
    to: Seq<char>,
    from: Seq<char>,
    heading: Seq<char>,
    message: Seq<char>,
) -> bool {
    g.to == to && g.from == from && g.heading == heading && g.message == message
}

/// How many stored records carry exactly these payload fields.
pub open spec fn count_matching(
    s: Seq<GreetingModel>,
    to: Seq<char>,
    from: Seq<char>,
    heading: Seq<char>,
    message: Seq<char>,
) -> nat {
    s.filter(|g: GreetingModel| matches_fields(g, to, from, heading, message)).len()
}

/// Law: storing a greeting adds exactly one record with its payload fields
/// and leaves the count of records with any other payload unchanged. Reads
/// are idempotent over the same contents, so two stores of equal content
/// give two records.
pub proof fn lemma_store_adds_one_match(
    s: Seq<GreetingModel>,
    g: GreetingModel,
    to: Seq<char>,
    from: Seq<char>,
    heading: Seq<char>,
    message: Seq<char>,
)
    ensures
        matches_fields(g, to, from, heading, message) ==> count_matching(
            s.push(g),
            to,
            from,
            heading,
            message,
        ) == count_matching(s, to, from, heading, message) + 1,
        !matches_fields(g, to, from, heading, message) ==> count_matching(
            s.push(g),
            to,
            from,
            heading,
            message,
        ) == count_matching(s, to, from, heading, message),
{
    reveal(Seq::filter);
    let pred = |gm: GreetingModel| matches_fields(gm, to, from, heading, message);
    assert(s.push(g).drop_last() =~= s);
    assert(s.push(g).last() == g);
}

/// True iff all records in the sequence carry pairwise distinct identifiers.
pub open spec fn distinct_ids(s: Seq<GreetingModel>) -> bool {
    forall|i: int, j: int|
        0 <= i < s.len() && 0 <= j < s.len() && i != j ==> s[i].id != s[j].id
}

/// True iff some record in the sequence carries this identifier.
pub open spec fn has_id(s: Seq<GreetingModel>, id: Seq<char>) -> bool {
    exists|i: int| 0 <= i < s.len() && s[i].id == id
}

/// Law: if the stored records carry distinct identifiers and a new record's
/// identifier is not among them, the records after storing it still carry
/// distinct identifiers; storing N greetings with fresh identifiers thus
/// yields N distinct identifiers.
pub proof fn lemma_store_preserves_distinct_ids(s: Seq<GreetingModel>, g: GreetingModel)
    requires
        distinct_ids(s),
        !has_id(s, g.id),
    ensures
        distinct_ids(s.push(g)),
{
    let t = s.push(g);
    assert forall|i: int, j: int|
        0 <= i < t.len() && 0 <= j < t.len() && i != j implies t[i].id != t[j].id by {
        if i < s.len() && j < s.len() {
            assert(s[i].id != s[j].id);
        } else if i < s.len() {
            assert(!(s[i].id == g.id));
        } else if j < s.len() {
            assert(!(s[j].id == g.id));
        }
    }
}

} // verus!
