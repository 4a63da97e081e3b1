//! The bus consumer side: the payload envelope read from the topic, its
//! exact wire form, and the consumer-step decision, which dead-letters a
//! malformed message and carries on instead of failing.

use vstd::prelude::*;

use vstd::string::StringExecFns;

use crate::codec::{
    chars_to_string, eat_lit, esc, i64_in_range, int_rep, is_digit, lemma_esc_align,
    lemma_int_terminated_unique, parse_i64, parse_jstring, str_to_chars,
};

verus! {

/// Mathematical model of the log record inside the envelope.
#[verifier::ext_equal]
pub ghost struct GreetingLoggModel {
    /// Storage surrogate carried in the envelope's `id` slot.
    pub id: int,
    /// The stored record's identifier.
    pub greeting_id: Seq<char>,
    /// The record's creation time in seconds relative to the Unix epoch.
    pub created: int,
}

/// The log record the consumer reads out of one bus message.
#[derive(Debug)]
pub struct GreetingLogg {
    pub id: i64,
    pub greeting_id: String,
    pub created: i64,
}

impl View for GreetingLogg {
    type V = GreetingLoggModel;

    open spec fn view(&self) -> GreetingLoggModel {
        GreetingLoggModel {
            id: self.id as int,
            greeting_id: self.greeting_id@,
            created: self.created as int,
        }
    }
}

/// The envelope a bus message carries: one record under the key `after`.
#[derive(Debug)]
pub struct KafkaTopicPayload {
    pub after: GreetingLogg,
}

impl View for KafkaTopicPayload {
    type V = GreetingLoggModel;

    open spec fn view(&self) -> GreetingLoggModel {
        self.after@
    }
}

/// The exact wire text of an envelope: a JSON object with the record
/// under `after`, its numbers in canonical decimal and its identifier as
/// a canonically escaped JSON string.
pub open spec fn payload_json(m: GreetingLoggModel) -> Seq<char> {
    ("{\"after\":{\"id\":")@ + int_rep(m.id) + (",\"greetingId\":\"")@ + esc(m.greeting_id) + (
    "\",\"created\":")@ + int_rep(m.created) + ("}}")@
}

/// How the wire text of an envelope decomposes around its three fields.
proof fn lemma_payload_structure(m: GreetingLoggModel, vs: Seq<char>)
    requires
        vs == payload_json(m),
    ensures
        vs.len() == 44 + int_rep(m.id).len() + esc(m.greeting_id).len() + int_rep(m.created).len(),
        vs.subrange(0, 15) == ("{\"after\":{\"id\":")@,
        vs.subrange(15, 15 + int_rep(m.id).len() as int) == int_rep(m.id),
        is_digit(vs[15 + int_rep(m.id).len() as int]) == false,
        vs.subrange(
            15 + int_rep(m.id).len() as int,
            30 + int_rep(m.id).len() as int,
        ) == (",\"greetingId\":\"")@,
        vs.subrange(
            30 + int_rep(m.id).len() as int,
            31 + int_rep(m.id).len() as int + esc(m.greeting_id).len() as int,
        ) == esc(m.greeting_id) + seq!['"'],
        vs.subrange(
            31 + int_rep(m.id).len() as int + esc(m.greeting_id).len() as int,
            42 + int_rep(m.id).len() as int + esc(m.greeting_id).len() as int,
        ) == (",\"created\":")@,
        vs.subrange(
            42 + int_rep(m.id).len() as int + esc(m.greeting_id).len() as int,
            42 + int_rep(m.id).len() as int + esc(m.greeting_id).len() as int + int_rep(
                m.created,
            ).len() as int,
        ) == int_rep(m.created),
        is_digit(
            vs[42 + int_rep(m.id).len() as int + esc(m.greeting_id).len() as int + int_rep(
                m.created,
            ).len() as int],
        ) == false,
        vs.subrange(
            42 + int_rep(m.id).len() as int + esc(m.greeting_id).len() as int + int_rep(
                m.created,
            ).len() as int,
            vs.len() as int,
        ) == ("}}")@,
{
    reveal_strlit("{\"after\":{\"id\":");
    reveal_strlit(",\"greetingId\":\"");
    reveal_strlit("\",\"created\":");
    reveal_strlit(",\"created\":");
    reveal_strlit("}}");
    let l1 = ("{\"after\":{\"id\":")@;
    let l2 = (",\"greetingId\":\"")@;
    let l3 = ("\",\"created\":")@;
    let l4 = ("}}")@;
    let i1 = int_rep(m.id);
    let e = esc(m.greeting_id);
    let i2 = int_rep(m.created);
    assert(l1.len() == 15 && l2.len() == 15 && l3.len() == 12 && l4.len() == 2);
    let p1: int = 15;
    let p2: int = p1 + i1.len();
    let p3: int = p2 + 15;
    let p4: int = p3 + e.len() + 1;
    let p5: int = p4 + 11;
    let p6: int = p5 + i2.len();
    assert(vs.len() == p6 + 2);
    assert(vs.subrange(0, p1) =~= l1);
    assert(vs.subrange(p1, p2) =~= i1);
    assert(vs[p2] == l2[0]);
    assert(!is_digit(l2[0]));
    assert(vs.subrange(p2, p3) =~= l2);
    assert(vs.subrange(p3, p4) =~= e + seq!['"']) by {
        assert(l3[0] == '"');
        assert(forall|k: int| 0 <= k < e.len() ==> vs[p3 + k] == #[trigger] e[k]);
        assert(vs[p3 + e.len()] == l3[0]);
    }
    assert(vs.subrange(p4, p5) =~= (",\"created\":")@) by {
        assert(forall|k: int|
            0 <= k < 11 ==> vs[p4 + k] == #[trigger] l3[k + 1]);
        assert(forall|k: int|
            0 <= k < 11 ==> #[trigger] (",\"created\":")@[k] == l3[k + 1]);
    }
    assert(vs.subrange(p5, p6) =~= i2);
    assert(vs[p6] == l4[0]);
    assert(!is_digit(l4[0]));
    assert(vs.subrange(p6, vs.len() as int) =~= l4);
}

/// Law: the wire form is injective. A record that goes out through the
/// producer path and comes back through the consumer's parser is the
/// record itself: same surrogate, same identifier, same creation time.
pub proof fn lemma_payload_json_injective(m1: GreetingLoggModel, m2: GreetingLoggModel)
    requires
        payload_json(m1) == payload_json(m2),
    ensures
        m1 == m2,
{
    let vs = payload_json(m1);
    lemma_payload_structure(m1, vs);
    lemma_payload_structure(m2, vs);
    let i1a = int_rep(m1.id);
    let i1b = int_rep(m2.id);
    lemma_int_terminated_unique(vs, 15, m1.id, 15 + i1a.len() as int, m2.id, 15 + i1b.len() as int);
    let p3: int = 30 + i1a.len() as int;
    let ea = esc(m1.greeting_id);
    let eb = esc(m2.greeting_id);
    let w = vs.subrange(p3, vs.len() as int);
    let taila = vs.subrange(p3 + ea.len() + 1, vs.len() as int);
    let tailb = vs.subrange(p3 + eb.len() + 1, vs.len() as int);
    assert(w =~= ea + seq!['"'] + taila) by {
        assert(vs.subrange(p3, p3 + ea.len() + 1) == ea + seq!['"']);
        assert(forall|k: int|
            0 <= k < ea.len() + 1 ==> #[trigger] w[k] == vs.subrange(p3, p3 + ea.len() + 1)[k]);
    }
    assert(w =~= eb + seq!['"'] + tailb) by {
        assert(vs.subrange(p3, p3 + eb.len() + 1) == eb + seq!['"']);
        assert(forall|k: int|
            0 <= k < eb.len() + 1 ==> #[trigger] w[k] == vs.subrange(p3, p3 + eb.len() + 1)[k]);
    }
    assert(ea + (seq!['"'] + taila) =~= eb + seq!['"'] + tailb);
    lemma_esc_align(m1.greeting_id, m2.greeting_id, seq!['"'] + taila, tailb);
    let r = choose|r: Seq<char>|
        m2.greeting_id == #[trigger] (m1.greeting_id + r) && seq!['"'] + taila == esc(r)
            + seq!['"'] + tailb;
    if r.len() > 0 {
        assert((esc(r) + seq!['"'] + tailb)[0] == esc(r)[0]);
        assert(esc(r) == crate::codec::esc_char(r[0]) + esc(r.drop_first()));
        assert(esc(r)[0] == crate::codec::esc_char(r[0])[0]);
        assert(crate::codec::esc_char(r[0])[0] != '"') by {
            if r[0] != '"' && r[0] != '\\' && !crate::codec::is_ctl(r[0]) {
                assert(crate::codec::esc_char(r[0])[0] == r[0]);
            }
        }
        assert((seq!['"'] + taila)[0] == '"');
        assert(false);
    }
    assert(esc(r) =~= Seq::<char>::empty());
    assert(m2.greeting_id =~= m1.greeting_id);
    let p5: int = 42 + i1a.len() as int + ea.len() as int;
    lemma_int_terminated_unique(
        vs,
        p5,
        m1.created,
        p5 + int_rep(m1.created).len() as int,
        m2.created,
        p5 + int_rep(m2.created).len() as int,
    );
    assert(m1 =~= m2);
}

/// Renders an envelope as its wire text.
pub fn encode_payload(p: &KafkaTopicPayload) -> (r: String)
    ensures
        r@ == payload_json(p@),
{
    let mut out = String::new();
    out.append("{\"after\":{\"id\":");
    crate::codec::push_i64(p.after.id, &mut out);
    out.append(",\"greetingId\":\"");
    crate::codec::push_escaped(p.after.greeting_id.as_str(), &mut out);
    out.append("\",\"created\":");
    crate::codec::push_i64(p.after.created, &mut out);
    out.append("}}");
    proof {
        assert(out@ =~= payload_json(p@));
    }
    out
}

/// Parses wire text as an envelope: succeeds exactly on the wire text of
/// an envelope whose numbers fit `i64`, and then yields that envelope.
#[verifier::rlimit(100)]
#[verifier::spinoff_prover]
pub fn parse_payload(s: &str) -> (r: Option<KafkaTopicPayload>)
    ensures
        r matches Some(p) ==> s@ == payload_json(p@),
        forall|m: GreetingLoggModel|
            s@ == payload_json(m) && i64_in_range(m.id) && i64_in_range(m.created) ==> (r matches
                Some(p) && p@ == m),
{
    let v = str_to_chars(s);
    let ghost vs = s@;
    proof {
        reveal_strlit("{\"after\":{\"id\":");
        reveal_strlit(",\"greetingId\":\"");
        reveal_strlit(",\"created\":");
        reveal_strlit("\",\"created\":");
        reveal_strlit("}}");
    }
    let i1 = match eat_lit(&v, 0, "{\"after\":{\"id\":") {
        Some(i) => i,
        None => {
            proof {
                assert forall|m: GreetingLoggModel|
                    vs == payload_json(m) && i64_in_range(m.id) && i64_in_range(
                        m.created,
                    ) implies false by {
                    lemma_payload_structure(m, vs);
                }
            }
            return None;
        },
    };
    let (id, i2) = match parse_i64(&v, i1) {
        Some(p) => p,
        None => {
            proof {
                assert forall|m: GreetingLoggModel|
                    vs == payload_json(m) && i64_in_range(m.id) && i64_in_range(
                        m.created,
                    ) implies false by {
                    lemma_payload_structure(m, vs);
                    let n: i64 = m.id as i64;
                    let e: int = 15 + int_rep(m.id).len() as int;
                    assert(vs.subrange(i1 as int, e) == int_rep(n as int));
                    assert(!is_digit(vs[e]));
                }
            }
            return None;
        },
    };
    let i3 = match eat_lit(&v, i2, ",\"greetingId\":\"") {
        Some(i) => i,
        None => {
            proof {
                assert forall|m: GreetingLoggModel|
                    vs == payload_json(m) && i64_in_range(m.id) && i64_in_range(
                        m.created,
                    ) implies false by {
                    lemma_payload_structure(m, vs);
                    let n: i64 = m.id as i64;
                    let e: int = 15 + int_rep(m.id).len() as int;
                    assert(vs.subrange(i1 as int, e) == int_rep(n as int));
                    assert(!is_digit(vs[e]));
                    assert(i2 == e);
                }
            }
            return None;
        },
    };
    let (gid_chars, i4) = match parse_jstring(&v, i3) {
        Some(p) => p,
        None => {
            proof {
                assert forall|m: GreetingLoggModel|
                    vs == payload_json(m) && i64_in_range(m.id) && i64_in_range(
                        m.created,
                    ) implies false by {
                    lemma_payload_structure(m, vs);
                    let n: i64 = m.id as i64;
                    let e: int = 15 + int_rep(m.id).len() as int;
                    assert(vs.subrange(i1 as int, e) == int_rep(n as int));
                    assert(!is_digit(vs[e]));
                    assert(i2 == e && i3 == e + 15);
                    assert(vs.subrange(
                        i3 as int,
                        i3 + esc(m.greeting_id).len() as int + 1,
                    ) == esc(m.greeting_id) + seq!['"']);
                }
            }
            return None;
        },
    };
    let i5 = match eat_lit(&v, i4, ",\"created\":") {
        Some(i) => i,
        None => {
            proof {
                assert forall|m: GreetingLoggModel|
                    vs == payload_json(m) && i64_in_range(m.id) && i64_in_range(
                        m.created,
                    ) implies false by {
                    lemma_payload_structure(m, vs);
                    let n: i64 = m.id as i64;
                    let e: int = 15 + int_rep(m.id).len() as int;
                    assert(vs.subrange(i1 as int, e) == int_rep(n as int));
                    assert(!is_digit(vs[e]));
                    assert(i2 == e && i3 == e + 15);
                    assert(vs.subrange(
                        i3 as int,
                        i3 + esc(m.greeting_id).len() as int + 1,
                    ) == esc(m.greeting_id) + seq!['"']);
                    assert(i4 == i3 + esc(m.greeting_id).len() + 1);
                }
            }
            return None;
        },
    };
    let (created, i6) = match parse_i64(&v, i5) {
        Some(p) => p,
        None => {
            proof {
                assert forall|m: GreetingLoggModel|
                    vs == payload_json(m) && i64_in_range(m.id) && i64_in_range(
                        m.created,
                    ) implies false by {
                    lemma_payload_structure(m, vs);
                    let n: i64 = m.id as i64;
                    let e: int = 15 + int_rep(m.id).len() as int;
                    assert(vs.subrange(i1 as int, e) == int_rep(n as int));
                    assert(!is_digit(vs[e]));
                    assert(i2 == e && i3 == e + 15);
                    assert(vs.subrange(
                        i3 as int,
                        i3 + esc(m.greeting_id).len() as int + 1,
                    ) == esc(m.greeting_id) + seq!['"']);
                    assert(i4 == i3 + esc(m.greeting_id).len() + 1);
                    assert(i5 == i4 + 11);
                    let nc: i64 = m.created as i64;
                    let ec: int = i5 + int_rep(m.created).len() as int;
                    assert(vs.subrange(i5 as int, ec) == int_rep(nc as int));
                    assert(!is_digit(vs[ec]));
                }
            }
            return None;
        },
    };
    let i7 = match eat_lit(&v, i6, "}}") {
        Some(i) => i,
        None => {
            proof {
                assert forall|m: GreetingLoggModel|
                    vs == payload_json(m) && i64_in_range(m.id) && i64_in_range(
                        m.created,
                    ) implies false by {
                    lemma_payload_structure(m, vs);
                    let n: i64 = m.id as i64;
                    let e: int = 15 + int_rep(m.id).len() as int;
                    assert(vs.subrange(i1 as int, e) == int_rep(n as int));
                    assert(!is_digit(vs[e]));
                    assert(i2 == e && i3 == e + 15);
                    assert(vs.subrange(
                        i3 as int,
                        i3 + esc(m.greeting_id).len() as int + 1,
                    ) == esc(m.greeting_id) + seq!['"']);
                    assert(i4 == i3 + esc(m.greeting_id).len() + 1);
                    assert(i5 == i4 + 11);
                    let nc: i64 = m.created as i64;
                    let ec: int = i5 + int_rep(m.created).len() as int;
                    assert(vs.subrange(i5 as int, ec) == int_rep(nc as int));
                    assert(!is_digit(vs[ec]));
                    assert(i6 == ec);
                }
            }
            return None;
        },
    };
    if i7 != v.len() {
        proof {
            assert forall|m: GreetingLoggModel|
                vs == payload_json(m) && i64_in_range(m.id) && i64_in_range(
                    m.created,
                ) implies false by {
                lemma_payload_structure(m, vs);
                let n: i64 = m.id as i64;
                let e: int = 15 + int_rep(m.id).len() as int;
                assert(vs.subrange(i1 as int, e) == int_rep(n as int));
                assert(!is_digit(vs[e]));
                assert(i2 == e && i3 == e + 15);
                assert(vs.subrange(
                    i3 as int,
                    i3 + esc(m.greeting_id).len() as int + 1,
                ) == esc(m.greeting_id) + seq!['"']);
                assert(i4 == i3 + esc(m.greeting_id).len() + 1);
                assert(i5 == i4 + 11);
                let nc: i64 = m.created as i64;
                let ec: int = i5 + int_rep(m.created).len() as int;
                assert(vs.subrange(i5 as int, ec) == int_rep(nc as int));
                assert(!is_digit(vs[ec]));
                assert(i6 == ec);
                assert(i7 == vs.len());
            }
        }
        return None;
    }
    let greeting_id = chars_to_string(&gid_chars);
    let payload = KafkaTopicPayload {
        after: GreetingLogg { id, greeting_id, created },
    };
    proof {
        assert(vs =~= vs.subrange(0, i1 as int) + vs.subrange(i1 as int, i2 as int) + vs.subrange(
            i2 as int,
            i3 as int,
        ) + vs.subrange(i3 as int, i4 as int) + vs.subrange(i4 as int, i5 as int) + vs.subrange(
            i5 as int,
            i6 as int,
        ) + vs.subrange(i6 as int, i7 as int));
        assert(("\",\"created\":")@ =~= seq!['"'] + (",\"created\":")@);
        assert(vs.subrange(i3 as int, i4 as int) + vs.subrange(i4 as int, i5 as int) =~= esc(
            gid_chars@,
        ) + ("\",\"created\":")@);
        assert(vs =~= payload_json(payload@));
        assert forall|m: GreetingLoggModel|
            vs == payload_json(m) && i64_in_range(m.id) && i64_in_range(m.created) implies payload@
            == m by {
            lemma_payload_json_injective(payload@, m);
        }
    }
    Some(payload)
}

/// What the consumer loop does with one received message.
#[derive(Debug)]
pub enum ConsumerAction {
    /// The payload parsed: log this record and commit the offset.
    Record(GreetingLogg),
    /// The payload was missing or malformed: set it aside and carry on.
    DeadLetter,
}

/// The decision for one received bus message. A message whose payload is
/// the wire text of an envelope with `i64`-sized numbers is logged and
/// committed; anything else — a missing payload, text that is not an
/// envelope — is dead-lettered, never fatal.
pub fn consume_step(payload: Option<&str>) -> (a: ConsumerAction)
    ensures
        a matches ConsumerAction::Record(g) ==> (payload matches Some(s) && s@ == payload_json(
            g@,
        )),
        a is DeadLetter ==> (payload matches Some(s) ==> (forall|m: GreetingLoggModel|
            i64_in_range(m.id) && i64_in_range(m.created) ==> s@ != payload_json(m))),
{
    match payload {
        None => ConsumerAction::DeadLetter,
        Some(s) => match parse_payload(s) {
            Some(p) => ConsumerAction::Record(p.after),
            None => ConsumerAction::DeadLetter,
        },
    }
}

} // verus!
