//! Raw backend entity records: namespaced entity ids, free-form attribute
//! values, and the person / zone / input-boolean record shapes.

use vstd::prelude::*;

use crate::text::{matches_at, str_eq_str};

verus! {

use vstd::string::StrSliceExecFns;
use vstd::string::StringExecFns;

/// The entity namespaces the pipeline works with. An id always carries its
/// kind, so a person id can never be mistaken for a zone id.
#[derive(Clone, Copy, Debug, PartialEq, Eq, Structural)]
pub enum EntityKind {
    Person,
    Zone,
    InputBoolean,
}

/// The canonical namespace prefix of an entity kind, separator included.
pub open spec fn spec_kind_prefix(kind: EntityKind) -> Seq<char> {
    match kind {
        EntityKind::Person => "person."@,
        EntityKind::Zone => "zone."@,
        EntityKind::InputBoolean => "input_boolean."@,
    }
}

/// The canonical namespace prefix of an entity kind.
pub fn kind_prefix(kind: EntityKind) -> (r: &'static str)
    ensures
        r@ == spec_kind_prefix(kind),
        r@.len() > 0,
{
    match kind {
        EntityKind::Person => {
            proof {
                reveal_strlit("person.");
            }
            "person."
        },
        EntityKind::Zone => {
            proof {
                reveal_strlit("zone.");
            }
            "zone."
        },
        EntityKind::InputBoolean => {
            proof {
                reveal_strlit("input_boolean.");
            }
            "input_boolean."
        },
    }
}

/// An ASCII word character: a letter, a digit, or an underscore.
pub open spec fn is_word_char(c: char) -> bool {
    let u = c as u32;
    (('a' as u32) <= u && u <= ('z' as u32)) || (('A' as u32) <= u && u <= ('Z' as u32)) || (('0'
        as u32) <= u && u <= ('9' as u32)) || u == ('_' as u32)
}

/// A non-empty sequence of word characters: a valid entity local-name.
pub open spec fn is_word(s: Seq<char>) -> bool {
    s.len() > 0 && forall|i: int| 0 <= i < s.len() ==> is_word_char(s[i])
}

fn is_word_char_exec(c: char) -> (r: bool)
    ensures
        r == is_word_char(c),
{
    let u = c as u32;
    (97 <= u && u <= 122) || (65 <= u && u <= 90) || (48 <= u && u <= 57) || u == 95
}

/// `s` with every leading repetition of `p` removed.
pub open spec fn spec_strip_prefix(s: Seq<char>, p: Seq<char>) -> Seq<char>
    decreases s.len(),
{
    if p.len() > 0 && s.len() >= p.len() && s.subrange(0, p.len() as int) == p {
        spec_strip_prefix(s.skip(p.len() as int), p)
    } else {
        s
    }
}

/// Parsing a string as an id of the given kind: strip any leading namespace
/// prefix, then demand a non-empty local-name of word characters. `None`
/// when the local-name is invalid.
pub open spec fn spec_parse_id(kind: EntityKind, s: Seq<char>) -> Option<Seq<char>> {
    let t = spec_strip_prefix(s, spec_kind_prefix(kind));
    if is_word(t) {
        Some(t)
    } else {
        None
    }
}

/// A namespaced entity identifier, held in canonical form: the kind tag
/// plus the local-name with the namespace prefix removed.
#[derive(Debug, Clone)]
pub struct EntityId {
    pub kind: EntityKind,
    pub suffix: String,
}

impl EntityId {
    /// The construction-time invariant: the local-name is a non-empty run
    /// of word characters.
    pub open spec fn wf(&self) -> bool {
        is_word(self.suffix@)
    }

    /// The canonical text form, prefix included (`person.keith`).
    pub open spec fn spec_canonical(&self) -> Seq<char> {
        spec_kind_prefix(self.kind) + self.suffix@
    }

    /// Parse a value as an id of the given kind. Accepts the local-name
    /// with or without its namespace prefix and normalizes either to the
    /// canonical form; rejects any local-name that is not a non-empty run
    /// of word characters.
    pub fn new(kind: EntityKind, value: &str) -> (r: Result<EntityId, String>)
        ensures
            r is Ok <==> spec_parse_id(kind, value@) is Some,
            r matches Ok(id) ==> id.kind == kind && id.suffix@ == spec_parse_id(
                kind,
                value@,
            ).unwrap() && id.wf(),
    {
        let prefix = kind_prefix(kind);
        let plen = prefix.unicode_len();
        let len = value.unicode_len();
        let mut pos: usize = 0;
        proof {
            assert(value@.skip(0) =~= value@);
        }
        while plen <= len - pos && matches_at(value, pos, prefix)
            invariant
                plen == prefix@.len(),
                plen > 0,
                len == value@.len(),
                prefix@ == spec_kind_prefix(kind),
                pos <= len,
                spec_strip_prefix(value@, prefix@) == spec_strip_prefix(
                    value@.skip(pos as int),
                    prefix@,
                ),
            decreases len - pos,
        {
            proof {
                let rest = value@.skip(pos as int);
                assert(rest.subrange(0, plen as int) =~= value@.subrange(pos as int, pos + plen));
                assert(rest.skip(plen as int) =~= value@.skip(pos + plen));
            }
            pos = pos + plen;
        }
        proof {
            if plen <= len - pos {
                assert(value@.skip(pos as int).subrange(0, plen as int) =~= value@.subrange(
                    pos as int,
                    pos + plen,
                ));
            }
            assert(spec_strip_prefix(value@.skip(pos as int), prefix@) == value@.skip(pos as int));
        }
        let suffix_str = value.substring_char(pos, len);
        proof {
            assert(suffix_str@ =~= value@.skip(pos as int));
        }
        let slen = suffix_str.unicode_len();
        if slen == 0 {
            return Err(String::from_str("Invalid entity ID: ").concat(value));
        }
        let mut i: usize = 0;
        while i < slen
            invariant
                slen == suffix_str@.len(),
                i <= slen,
                suffix_str@ == spec_strip_prefix(value@, spec_kind_prefix(kind)),
                forall|j: int| 0 <= j < i ==> is_word_char(suffix_str@[j]),
            decreases slen - i,
        {
            if !is_word_char_exec(suffix_str.get_char(i)) {
                return Err(String::from_str("Invalid entity ID: ").concat(value));
            }
            i += 1;
        }
        Ok(EntityId { kind, suffix: suffix_str.to_owned() })
    }

    /// The canonical text form, prefix included.
    pub fn canonical(&self) -> (r: String)
        ensures
            r@ == self.spec_canonical(),
    {
        String::from_str(kind_prefix(self.kind)).concat(self.suffix.as_str())
    }

    /// Equality of kind and local-name.
    pub fn eq_id(&self, other: &EntityId) -> (r: bool)
        ensures
            r == (self.kind == other.kind && self.suffix@ == other.suffix@),
    {
        self.kind == other.kind && self.suffix == other.suffix
    }

    /// A copy with the same kind and local-name.
    pub fn duplicate(&self) -> (r: EntityId)
        ensures
            r.kind == self.kind,
            r.suffix@ == self.suffix@,
    {
        EntityId { kind: self.kind, suffix: self.suffix.clone() }
    }
}

/// A free-form backend attribute value: an explicit tagged sum standing in
/// for the backend's schema-less payloads. Floating-point payloads are
/// carried opaquely as their IEEE-754 bit pattern; the pipeline never
/// computes with them.
#[derive(Debug)]
pub enum AttributeValue {
    StringValue(String),
    FloatValue(u32),
    IntValue(i32),
    BoolValue(bool),
    ListValue(Vec<AttributeValue>),
    MapValue(Vec<(String, AttributeValue)>),
}

/// An attribute map: association pairs looked up by the first matching key.
pub type AttributeMap = Vec<(String, AttributeValue)>;

/// The first value bound to `key`, if any.
pub open spec fn spec_attrs_get(attrs: Seq<(String, AttributeValue)>, key: Seq<char>) -> Option<
    AttributeValue,
>
    decreases attrs.len(),
{
    if attrs.len() == 0 {
        None
    } else if attrs[0].0@ == key {
        Some(attrs[0].1)
    } else {
        spec_attrs_get(attrs.skip(1), key)
    }
}

/// Look up the first value bound to `key`.
pub fn attrs_get<'a>(attrs: &'a AttributeMap, key: &str) -> (r: Option<&'a AttributeValue>)
    ensures
        match r {
            Some(v) => spec_attrs_get(attrs@, key@) == Some(*v),
            None => spec_attrs_get(attrs@, key@) is None,
        },
{
    let n = attrs.len();
    let mut i: usize = 0;
    proof {
        assert(attrs@.skip(0) =~= attrs@);
    }
    while i < n
        invariant
            n == attrs@.len(),
            i <= n,
            spec_attrs_get(attrs@, key@) == spec_attrs_get(attrs@.skip(i as int), key@),
        decreases n - i,
    {
        if str_eq_str(attrs[i].0.as_str(), key) {
            proof {
                assert(attrs@.skip(i as int)[0] == attrs@[i as int]);
            }
            return Some(&attrs[i].1);
        }
        proof {
            assert(attrs@.skip(i as int).skip(1) =~= attrs@.skip(i + 1));
        }
        i += 1;
    }
    None
}

/// A raw person record. `zone_id` is never supplied by the backend; it is
/// `None` until the correlator fills it in from zone membership lists.
#[derive(Debug)]
pub struct Person {
    pub id: EntityId,
    pub zone_id: Option<EntityId>,
    pub attributes: AttributeMap,
}

impl Person {
    pub open spec fn wf(&self) -> bool {
        &&& self.id.kind == EntityKind::Person
        &&& self.id.wf()
        &&& match self.zone_id {
            Some(z) => z.kind == EntityKind::Zone && z.wf(),
            None => true,
        }
    }

    /// The backend path of the person's designated picture, when the record
    /// carries a string `entity_picture` attribute.
    pub fn get_entity_picture_path(&self) -> (r: Option<String>)
        ensures
            match spec_attrs_get(self.attributes@, "entity_picture"@) {
                Some(AttributeValue::StringValue(s)) => r is Some && r.unwrap()@ == s@,
                _ => r is None,
            },
    {
        match attrs_get(&self.attributes, "entity_picture") {
            Some(AttributeValue::StringValue(s)) => Some(s.clone()),
            _ => None,
        }
    }
}

/// A raw zone record. Its `persons` attribute is read only during
/// correlation and is dropped from the outward-facing view.
#[derive(Debug)]
pub struct Zone {
    pub id: EntityId,
    pub attributes: AttributeMap,
}

impl Zone {
    pub open spec fn wf(&self) -> bool {
        self.id.kind == EntityKind::Zone && self.id.wf()
    }

    /// The zone's human-readable name, when the record carries a string
    /// `friendly_name` attribute.
    pub fn get_friendly_name(&self) -> (r: Option<String>)
        ensures
            match spec_attrs_get(self.attributes@, "friendly_name"@) {
                Some(AttributeValue::StringValue(s)) => r is Some && r.unwrap()@ == s@,
                _ => r is None,
            },
    {
        match attrs_get(&self.attributes, "friendly_name") {
            Some(AttributeValue::StringValue(s)) => Some(s.clone()),
            _ => None,
        }
    }
}

/// A raw boolean-switch record, as the backend reports it.
#[derive(Debug)]
pub struct InputBoolean {
    pub state: String,
}

impl InputBoolean {
    /// Whether the switch counts as on. The state could also read
    /// `unavailable` while the backend restarts; anything other than the
    /// literal `off` is deliberately treated as on, so a privacy switch
    /// fails closed.
    pub fn is_on(&self) -> (r: bool)
        ensures
            r == (self.state@ != "off"@),
    {
        !str_eq_str(self.state.as_str(), "off")
    }
}

} // verus!
