//! Field extraction and classification of one structured event.
//!
//! An [`AlertVisitor`] consumes the named field values of a single event,
//! coerces each value to its text form, and answers the questions the
//! pipeline asks of a classified record: is it an alert, what is its
//! message, and what identity should deduplicate it.

use vstd::prelude::*;
use crate::level::Level;

verus! {

/// One value attached to a named field of an event: a boolean, a string,
/// or an opaque value already rendered to its debug text.
pub enum FieldValue {
    Bool(bool),
    Str(String),
    Opaque(String),
}

/// The text a field value is stored as: booleans and strings keep their
/// literal text, opaque values keep their rendered form.
pub open spec fn coerce(v: FieldValue) -> Seq<char> {
    match v {
        FieldValue::Bool(b) => if b {
            "true"@
        } else {
            "false"@
        },
        FieldValue::Str(s) => s@,
        FieldValue::Opaque(s) => s@,
    }
}

/// The field mapping induced by a list of named values: the last value
/// recorded for a name wins.
pub open spec fn input_map(s: Seq<(String, FieldValue)>) -> Map<Seq<char>, Seq<char>>
    decreases s.len(),
{
    if s.len() == 0 {
        Map::empty()
    } else {
        input_map(s.drop_last()).insert(s.last().0@, coerce(s.last().1))
    }
}

/// The alert flag induced by a list of named values: the last boolean
/// recorded under the name `alert` wins; without one the flag stays unset.
pub open spec fn input_flag(s: Seq<(String, FieldValue)>) -> bool
    decreases s.len(),
{
    if s.len() == 0 {
        false
    } else {
        match s.last().1 {
            FieldValue::Bool(b) => if s.last().0@ == "alert"@ {
                b
            } else {
                input_flag(s.drop_last())
            },
            _ => input_flag(s.drop_last()),
        }
    }
}

/// The message of a record with field mapping `m`: the `message` field,
/// or a fixed fallback text when that field is absent.
pub open spec fn message_of(m: Map<Seq<char>, Seq<char>>) -> Seq<char> {
    if m.contains_key("message"@) {
        m["message"@]
    } else {
        "alert missing message"@
    }
}

/// The deduplication identity of a record with field mapping `m`: the
/// explicit `dedup_key` field when present, otherwise the message.
pub open spec fn identity_of(m: Map<Seq<char>, Seq<char>>) -> Seq<char> {
    if m.contains_key("dedup_key"@) {
        m["dedup_key"@]
    } else {
        message_of(m)
    }
}

/// The field mapping induced by an association list of already-coerced
/// values: the last value for a name wins.
pub open spec fn assoc_map(s: Seq<(String, String)>) -> Map<Seq<char>, Seq<char>>
    decreases s.len(),
{
    if s.len() == 0 {
        Map::empty()
    } else {
        assoc_map(s.drop_last()).insert(s.last().0@, s.last().1@)
    }
}

/// True iff no two entries of the association list share a name.
pub open spec fn distinct_names(s: Seq<(String, String)>) -> bool {
    forall|i: int, j: int| 0 <= i < j < s.len() ==> s[i].0@ != s[j].0@
}

/// On an association list with distinct names, the induced mapping holds
/// exactly the listed names, each bound to its listed value.
pub proof fn lemma_assoc_map_characterizes(s: Seq<(String, String)>)
    requires
        distinct_names(s),
    ensures
        forall|k: Seq<char>|
            #[trigger] assoc_map(s).contains_key(k) <==> (exists|i: int|
                0 <= i < s.len() && #[trigger] s[i].0@ == k),
        forall|i: int|
            0 <= i < s.len() ==> assoc_map(s).contains_key(#[trigger] s[i].0@) && assoc_map(
                s,
            )[s[i].0@] == s[i].1@,
    decreases s.len(),
{
    if s.len() > 0 {
        let s0 = s.drop_last();
        lemma_assoc_map_characterizes(s0);
        assert(assoc_map(s) == assoc_map(s0).insert(s.last().0@, s.last().1@));
        assert forall|k: Seq<char>| #[trigger]
            assoc_map(s).contains_key(k) implies (exists|i: int|
            0 <= i < s.len() && #[trigger] s[i].0@ == k) by {
            if k == s.last().0@ {
                assert(0 <= s.len() - 1 < s.len() && s[s.len() - 1].0@ == k);
            } else {
                assert(assoc_map(s0).contains_key(k));
                let i = choose|i: int| 0 <= i < s0.len() && #[trigger] s0[i].0@ == k;
                assert(s0[i] == s[i]);
                assert(0 <= i < s.len() && s[i].0@ == k);
            }
        }
        assert forall|k: Seq<char>| (exists|i: int|
            0 <= i < s.len() && #[trigger] s[i].0@ == k) implies #[trigger] assoc_map(
            s,
        ).contains_key(k) by {
            let i = choose|i: int| 0 <= i < s.len() && #[trigger] s[i].0@ == k;
            if i < s.len() - 1 {
                assert(s0[i].0@ == k);
            }
        }
        assert forall|i: int| 0 <= i < s.len() implies assoc_map(s).contains_key(
            #[trigger] s[i].0@,
        ) && assoc_map(s)[s[i].0@] == s[i].1@ by {
            if i < s.len() - 1 {
                assert(s0[i].0@ == s[i].0@ && s0[i].1@ == s[i].1@);
                assert(s[i].0@ != s.last().0@);
            }
        }
    }
}

/// The SHA-256 digest of the UTF-8 encoding of a character sequence.
pub uninterp spec fn sha256_of(s: Seq<char>) -> Seq<u8>;

/// Relies on `sha2::Sha256` through `digest::Digest::digest`: the SHA-256
/// digest of the UTF-8 bytes of `s`, a function of the characters alone.
#[verifier::external_body]
fn sha256_identity(s: &str) -> (r: [u8; 32])
    ensures
        r@ == sha256_of(s@),
{
    <sha2::Sha256 as sha2::Digest>::digest(s.as_bytes()).into()
}

/// One classified event: its severity, its alert flag, and its fields
/// coerced to text, keyed by name with the last value for a name retained.
pub struct AlertVisitor {
    level: Level,
    is_alert: bool,
    string_fields: Vec<(String, String)>,
}

impl AlertVisitor {
    /// Each field name occurs at most once in the stored list.
    pub closed spec fn wf(self) -> bool {
        distinct_names(self.string_fields@)
    }

    /// The severity the record was classified under.
    pub closed spec fn spec_level(self) -> Level {
        self.level
    }

    /// The alert flag: set by a boolean field named `alert`.
    pub closed spec fn spec_flag(self) -> bool {
        self.is_alert
    }

    /// The recorded fields as a mapping from name to text value.
    pub closed spec fn field_map(self) -> Map<Seq<char>, Seq<char>> {
        assoc_map(self.string_fields@)
    }

    /// A fresh record at severity `level`, with no fields and the alert
    /// flag unset.
    pub fn new(level: Level) -> (r: AlertVisitor)
        ensures
            r.wf(),
            r.spec_level() == level,
            !r.spec_flag(),
            r.field_map() == Map::<Seq<char>, Seq<char>>::empty(),
    {
        AlertVisitor { level, is_alert: false, string_fields: Vec::new() }
    }

    /// The position of `name` in the stored list, if it is there.
    fn find(&self, name: &String) -> (r: Option<usize>)
        ensures
            match r {
                Some(i) => i < self.string_fields@.len() && self.string_fields@[i as int].0@
                    == name@,
                None => forall|i: int|
                    0 <= i < self.string_fields@.len() ==> (#[trigger] self.string_fields@[i].0@)
                        != name@,
            },
    {
        let mut i: usize = 0;
        while i < self.string_fields.len()
            invariant
                i <= self.string_fields@.len(),
                forall|j: int|
                    0 <= j < i ==> (#[trigger] self.string_fields@[j].0@) != name@,
            decreases self.string_fields@.len() - i,
        {
            if self.string_fields[i].0.eq(name) {
                return Some(i);
            }
            i = i + 1;
        }
        None
    }

    /// Records a field, replacing any earlier value under the same name.
    pub fn insert(&mut self, key: String, value: String)
        requires
            old(self).wf(),
        ensures
            final(self).wf(),
            final(self).field_map() == old(self).field_map().insert(key@, value@),
            final(self).spec_level() == old(self).spec_level(),
            final(self).spec_flag() == old(self).spec_flag(),
    {
        let ghost s = self.string_fields@;
        match self.find(&key) {
            Some(i) => {
                let ghost k = key@;
                let ghost v = value@;
                self.string_fields.set(i, (key, value));
                proof {
                    let t = self.string_fields@;
                    assert forall|p: int, q: int| 0 <= p < q < t.len() implies t[p].0@
                        != t[q].0@ by {
                        assert(s[p].0@ != s[q].0@);
                    }
                    lemma_assoc_map_characterizes(s);
                    lemma_assoc_map_characterizes(t);
                    assert forall|x: Seq<char>|
                        assoc_map(t).contains_key(x) <==> assoc_map(s).insert(
                            k,
                            v,
                        ).contains_key(x) by {
                        if assoc_map(t).contains_key(x) {
                            let j = choose|j: int| 0 <= j < t.len() && #[trigger] t[j].0@ == x;
                            assert(s[j].0@ == x || x == k);
                        }
                        if assoc_map(s).insert(k, v).contains_key(x) {
                            if x == k {
                                assert(t[i as int].0@ == x);
                            } else {
                                let j = choose|j: int|
                                    0 <= j < s.len() && #[trigger] s[j].0@ == x;
                                assert(t[j].0@ == x);
                            }
                        }
                    }
                    assert forall|x: Seq<char>|
                        assoc_map(t).contains_key(x) implies assoc_map(t)[x] == assoc_map(
                        s,
                    ).insert(k, v)[x] by {
                        let j = choose|j: int| 0 <= j < t.len() && #[trigger] t[j].0@ == x;
                        if x == k {
                            assert(t[i as int].0@ == k && t[i as int].1@ == v);
                            assert(j == i as int);
                        } else {
                            assert(j != i as int);
                            assert(s[j].0@ == x && s[j].1@ == t[j].1@);
                        }
                    }
                    assert(assoc_map(t) =~= assoc_map(s).insert(k, v));
                }
            },
            None => {
                self.string_fields.push((key, value));
                proof {
                    assert(self.string_fields@.drop_last() =~= s);
                }
            },
        }
    }

    /// True iff the record is an alert: the alert flag is set, or a field
    /// named `alert` was recorded under any value.
    pub fn is_alert(&self) -> (r: bool)
        requires
            self.wf(),
        ensures
            r == (self.spec_flag() || self.field_map().contains_key("alert"@)),
    {
        if self.is_alert {
            return true;
        }
        let key = String::from_str("alert");
        proof {
            lemma_assoc_map_characterizes(self.string_fields@);
        }
        match self.find(&key) {
            Some(_) => true,
            None => false,
        }
    }

    /// The value recorded under `name`, if any.
    fn lookup<'a>(&'a self, name: &String) -> (r: Option<&'a String>)
        requires
            self.wf(),
        ensures
            match r {
                Some(v) => self.field_map().contains_key(name@) && v@ == self.field_map()[name@],
                None => !self.field_map().contains_key(name@),
            },
    {
        proof {
            lemma_assoc_map_characterizes(self.string_fields@);
        }
        match self.find(name) {
            Some(i) => Some(&self.string_fields[i].1),
            None => None,
        }
    }

    /// The message of the alert: the `message` field, or a fixed fallback
    /// text when that field is absent.
    pub fn message(&self) -> (r: &str)
        requires
            self.wf(),
        ensures
            r@ == message_of(self.field_map()),
    {
        let key = String::from_str("message");
        match self.lookup(&key) {
            Some(v) => v.as_str(),
            None => "alert missing message",
        }
    }

    /// The deduplication key of the alert: the digest of the `dedup_key`
    /// field when present, otherwise the digest of the message.
    pub fn dedup_key(&self) -> (r: [u8; 32])
        requires
            self.wf(),
        ensures
            r@ == sha256_of(identity_of(self.field_map())),
    {
        let key = String::from_str("dedup_key");
        match self.lookup(&key) {
            Some(v) => sha256_identity(v.as_str()),
            None => sha256_identity(self.message()),
        }
    }

    /// The severity the record was classified under.
    pub fn level(&self) -> (r: &Level)
        ensures
            *r == self.spec_level(),
    {
        &self.level
    }

    /// Records a boolean field; a boolean named `alert` also sets the
    /// alert flag to its value.
    pub fn record_bool(&mut self, name: String, value: bool)
        requires
            old(self).wf(),
        ensures
            final(self).wf(),
            final(self).field_map() == old(self).field_map().insert(
                name@,
                coerce(FieldValue::Bool(value)),
            ),
            final(self).spec_flag() == (if name@ == "alert"@ {
                value
            } else {
                old(self).spec_flag()
            }),
            final(self).spec_level() == old(self).spec_level(),
    {
        let alert_name = String::from_str("alert");
        if name.eq(&alert_name) {
            self.is_alert = value;
        }
        let text = if value {
            String::from_str("true")
        } else {
            String::from_str("false")
        };
        self.insert(name, text);
    }

    /// Records a string field under its literal text.
    pub fn record_str(&mut self, name: String, value: &str)
        requires
            old(self).wf(),
        ensures
            final(self).wf(),
            final(self).field_map() == old(self).field_map().insert(name@, value@),
            final(self).spec_flag() == old(self).spec_flag(),
            final(self).spec_level() == old(self).spec_level(),
    {
        self.insert(name, value.to_owned());
    }

    /// Records an opaque field under its rendered text.
    pub fn record_debug(&mut self, name: String, rendered: String)
        requires
            old(self).wf(),
        ensures
            final(self).wf(),
            final(self).field_map() == old(self).field_map().insert(name@, rendered@),
            final(self).spec_flag() == old(self).spec_flag(),
            final(self).spec_level() == old(self).spec_level(),
    {
        self.insert(name, rendered);
    }
}

/// Classifies one event: events less severe than `max_level` are filtered
/// out before any field work; all others are extracted into a record that
/// retains the last value recorded for each name.
pub fn classify(level: Level, max_level: Level, fields: Vec<(String, FieldValue)>) -> (r: Option<
    AlertVisitor,
>)
    ensures
        level.severity() < max_level.severity() <==> r is None,
        r matches Some(rec) ==> rec.wf() && rec.spec_level() == level && rec.spec_flag()
            == input_flag(fields@) && rec.field_map() == input_map(fields@),
{
    if !level.at_least(max_level) {
        return None;
    }
    let ghost all = fields@;
    let mut rest = fields;
    let mut visitor = AlertVisitor::new(level);
    let ghost done: int = 0;
    while rest.len() > 0
        invariant
            0 <= done <= all.len(),
            rest@ == all.skip(done),
            visitor.wf(),
            visitor.spec_level() == level,
            visitor.spec_flag() == input_flag(all.take(done)),
            visitor.field_map() == input_map(all.take(done)),
        decreases rest@.len(),
    {
        let (name, value) = rest.remove(0);
        proof {
            assert(all.take(done + 1).drop_last() =~= all.take(done));
            assert(all.take(done + 1).last() == all[done]);
            assert(rest@ =~= all.skip(done + 1));
        }
        match value {
            FieldValue::Bool(b) => {
                visitor.record_bool(name, b);
            },
            FieldValue::Str(s) => {
                visitor.record_str(name, s.as_str());
            },
            FieldValue::Opaque(d) => {
                visitor.record_debug(name, d);
            },
        }
        proof {
            done = done + 1;
        }
    }
    proof {
        assert(all.take(done) =~= all);
    }
    Some(visitor)
}

} // verus!
