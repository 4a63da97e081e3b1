//! Storage backends: the fully verified in-memory sink, and the row shape
//! of the relational variant with its conversions. The relational driver
//! itself is I/O and lives outside the library.

use vstd::prelude::*;

use crate::service::{
    greetings_view, Greeting, GreetingModel, GreetingRepository, ServiceError, SinkError,
};

verus! {

/// The in-memory sink: keeps every record in insertion order for the
/// lifetime of the process. Storing cannot fail; the liveness flag lets a
/// harness simulate an unreachable backend for the probe.
pub struct InMemoryGreetingRepository {
    greetings: Vec<Greeting>,
    live: bool,
}

impl InMemoryGreetingRepository {
    /// An empty, reachable sink.
    pub fn new() -> (r: InMemoryGreetingRepository)
        ensures
            r.contents() == Seq::<GreetingModel>::empty(),
            r.live(),
    {
        let r = InMemoryGreetingRepository { greetings: Vec::new(), live: true };
        proof {
            assert(r.contents() =~= Seq::<GreetingModel>::empty());
        }
        r
    }

    /// Marks the simulated backend as reachable or unreachable; the stored
    /// records are untouched.
    pub fn set_live(&mut self, live: bool)
        ensures
            final(self).contents() == old(self).contents(),
            final(self).live() == live,
    {
        self.live = live;
    }
}

impl GreetingRepository for InMemoryGreetingRepository {
    closed spec fn contents(&self) -> Seq<GreetingModel> {
        greetings_view(self.greetings@)
    }

    closed spec fn live(&self) -> bool {
        self.live
    }

    fn store(&mut self, greeting: Greeting) -> (r: Result<(), SinkError>)
        ensures
            r is Ok,
    {
        proof {
            assert(greetings_view(self.greetings@.push(greeting)) =~= greetings_view(
                self.greetings@,
            ).push(greeting@));
        }
        self.greetings.push(greeting);
        Ok(())
    }

    fn all(&self) -> (r: Result<Vec<Greeting>, SinkError>)
        ensures
            r is Ok,
    {
        let mut out: Vec<Greeting> = Vec::new();
        let mut i: usize = 0;
        while i < self.greetings.len()
            invariant
                i <= self.greetings.len(),
                out@.len() == i,
                forall|j: int| 0 <= j < i ==> out@[j]@ == self.greetings@[j]@,
            decreases self.greetings.len() - i,
        {
            out.push(self.greetings[i].clone());
            i += 1;
        }
        proof {
            assert(greetings_view(out@) =~= greetings_view(self.greetings@));
        }
        Ok(out)
    }

    fn peek_topic(&mut self) -> (r: Result<(), SinkError>) {
        if self.live {
            Ok(())
        } else {
            Err(SinkError::Transport("greeting backend unreachable".to_owned()))
        }
    }
}

/// Mathematical model of one row of the relational `greeting` table.
#[verifier::ext_equal]
pub ghost struct GreetingEntityModel {
    /// Primary key: the record identifier, as its hyphenated text form.
    pub id: Seq<char>,
    pub to: Seq<char>,
    pub from: Seq<char>,
    pub heading: Seq<char>,
    pub message: Seq<char>,
    /// Creation time as seconds relative to the Unix epoch, UTC.
    pub created: int,
}

/// One row of the relational `greeting` table: the record's fields plus
/// the identifier that serves as the primary key.
#[derive(Debug)]
pub struct GreetingEntity {
    pub id: String,
    pub to: String,
    pub from: String,
    pub heading: String,
    pub message: String,
    pub created: i64,
}

impl View for GreetingEntity {
    type V = GreetingEntityModel;

    open spec fn view(&self) -> GreetingEntityModel {
        GreetingEntityModel {
            id: self.id@,
            to: self.to@,
            from: self.from@,
            heading: self.heading@,
            message: self.message@,
            created: self.created as int,
        }
    }
}

impl GreetingEntity {
    /// A row holding only payload fields, before a key or time is assigned:
    /// the key is empty and the time is the epoch origin.
    pub fn new(to: String, from: String, heading: String, message: String) -> (e: GreetingEntity)
        ensures
            e@ == (GreetingEntityModel {
                id: Seq::<char>::empty(),
                to: to@,
                from: from@,
                heading: heading@,
                message: message@,
                created: 0,
            }),
    {
        let e = GreetingEntity { id: String::new(), to, from, heading, message, created: 0 };
        proof {
            assert(e@ =~= GreetingEntityModel {
                id: Seq::<char>::empty(),
                to: e@.to,
                from: e@.from,
                heading: e@.heading,
                message: e@.message,
                created: 0,
            });
        }
        e
    }

    /// The row a record is written as: same fields, keyed by the record's
    /// identifier.
    pub fn of_greeting(g: &Greeting) -> (e: GreetingEntity)
        ensures
            e@ == (GreetingEntityModel {
                id: g@.id,
                to: g@.to,
                from: g@.from,
                heading: g@.heading,
                message: g@.message,
                created: g@.created,
            }),
    {
        GreetingEntity {
            id: g.id().clone(),
            to: g.to().clone(),
            from: g.from().clone(),
            heading: g.heading().clone(),
            message: g.message().clone(),
            created: g.created(),
        }
    }

    /// The record a row reads back as: the row has no correlation id or
    /// event log, so those come back empty.
    pub fn into_greeting(self) -> (g: Greeting)
        ensures
            g@ == (GreetingModel {
                external_reference: Seq::<char>::empty(),
                id: self@.id,
                to: self@.to,
                from: self@.from,
                heading: self@.heading,
                message: self@.message,
                created: self@.created,
                events_created: Map::<Seq<char>, int>::empty(),
            }),
    {
        Greeting::with_id(
            String::new(),
            self.id,
            self.to,
            self.from,
            self.heading,
            self.message,
            self.created,
        )
    }
}

/// Errors of the relational backend, as plain detail text: a failed
/// statement, or a failed schema migration.
#[derive(Debug)]
pub enum RepoError {
    DbError(String),
    DbMigrationError(String),
}

impl RepoError {
    /// The service-level error this backend error surfaces as.
    pub fn into_service_error(self) -> (r: ServiceError)
        ensures
            r matches ServiceError::RepoError(d) ==> d@ == self.spec_detail(),
            r is RepoError,
    {
        match self {
            RepoError::DbError(d) => ServiceError::RepoError(d),
            RepoError::DbMigrationError(d) => ServiceError::RepoError(d),
        }
    }

    /// The detail text the error carries.
    pub open spec fn spec_detail(&self) -> Seq<char> {
        match self {
            RepoError::DbError(d) => d@,
            RepoError::DbMigrationError(d) => d@,
        }
    }
}

} // verus!
