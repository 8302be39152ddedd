use vstd::prelude::*;

use crate::error::ExtractError;

verus! {

/// A structured document, as the remote API returns it for one identifier.
#[derive(Debug, PartialEq, Eq)]
pub enum Json {
    Null,
    Bool(bool),
    /// A number, kept in its textual form.
    Number(String),
    Str(String),
    Array(Vec<Json>),
    /// The members of an object, in document order.
    Object(Vec<(String, Json)>),
}

/// The name of the labeled field that is read from each payload.
pub open spec fn topics_key() -> Seq<char> {
    seq!['t', 'o', 'p', 'i', 'c', 's']
}

/// The value of the first member named `key`, if any.
pub open spec fn lookup(fields: Seq<(String, Json)>, key: Seq<char>) -> Option<Json>
    decreases fields.len(),
{
    if fields.len() == 0 {
        None
    } else if fields[0].0@ == key {
        Some(fields[0].1)
    } else {
        lookup(fields.drop_first(), key)
    }
}

pub open spec fn all_strings(items: Seq<Json>) -> bool {
    forall|i: int| 0 <= i < items.len() ==> (#[trigger] items[i]) is Str
}

pub open spec fn strings_of(items: Seq<Json>) -> Seq<Seq<char>> {
    items.map_values(|j: Json| j->Str_0@)
}

/// What extraction makes of a payload: the strings of its `topics` array, or
/// the reason there are none.
pub open spec fn topics_of(payload: Json) -> Result<Seq<Seq<char>>, ExtractError> {
    match payload {
        Json::Object(fields) => match lookup(fields@, topics_key()) {
            None => Err(ExtractError::FieldMissing),
            Some(Json::Array(items)) => if all_strings(items@) {
                Ok(strings_of(items@))
            } else {
                Err(ExtractError::ElementType)
            },
            Some(_) => Err(ExtractError::FieldType),
        },
        _ => Err(ExtractError::FieldMissing),
    }
}

pub open spec fn views(v: Seq<String>) -> Seq<Seq<char>> {
    v.map_values(|s: String| s@)
}

proof fn lemma_lookup_after(fields: Seq<(String, Json)>, key: Seq<char>, i: int)
    requires
        0 <= i <= fields.len(),
        forall|j: int| 0 <= j < i ==> (#[trigger] fields[j]).0@ != key,
    ensures
        lookup(fields, key) == lookup(fields.subrange(i, fields.len() as int), key),
    decreases i,
{
    if i == 0 {
        assert(fields.subrange(0, fields.len() as int) =~= fields);
    } else {
        let rest = fields.drop_first();
        assert forall|j: int| 0 <= j < i - 1 implies (#[trigger] rest[j]).0@ != key by {
            assert(rest[j] == fields[j + 1]);
        }
        lemma_lookup_after(rest, key, i - 1);
        assert(rest.subrange(i - 1, rest.len() as int) =~= fields.subrange(i, fields.len() as int));
    }
}

/// Finds the first member of an object named `key`.
pub fn find_field<'a>(fields: &'a Vec<(String, Json)>, key: &String) -> (r: Option<&'a Json>)
    ensures
        match r {
            Some(v) => lookup(fields@, key@) == Some(*v),
            None => lookup(fields@, key@) is None,
        },
{
    let mut i: usize = 0;
    while i < fields.len()
        invariant
            i <= fields@.len(),
            forall|j: int| 0 <= j < i ==> (#[trigger] fields@[j]).0@ != key@,
        decreases fields@.len() - i,
    {
        if fields[i].0 == *key {
            proof {
                lemma_lookup_after(fields@, key@, i as int);
            }
            return Some(&fields[i].1);
        }
        i = i + 1;
    }
    proof {
        lemma_lookup_after(fields@, key@, i as int);
    }
    None
}

/// Reads the `topics` array of a payload as a sequence of strings.
pub fn extract_topics(payload: &Json) -> (r: Result<Vec<String>, ExtractError>)
    ensures
        match topics_of(*payload) {
            Ok(v) => r is Ok && views(r->Ok_0@) == v,
            Err(e) => r == Err::<Vec<String>, ExtractError>(e),
        },
{
    let fields = match payload {
        Json::Object(fields) => fields,
        _ => return Err(ExtractError::FieldMissing),
    };
    let key = "topics".to_owned();
    proof {
        reveal_strlit("topics");
        assert(key@ =~= topics_key());
    }
    let items = match find_field(fields, &key) {
        None => return Err(ExtractError::FieldMissing),
        Some(Json::Array(items)) => items,
        Some(_) => return Err(ExtractError::FieldType),
    };
    let mut out: Vec<String> = Vec::new();
    let mut i: usize = 0;
    while i < items.len()
        invariant
            *payload == Json::Object(*fields),
            lookup(fields@, topics_key()) == Some(Json::Array(*items)),
            i <= items@.len(),
            out@.len() == i,
            forall|j: int| 0 <= j < i ==> (#[trigger] items@[j]) is Str,
            forall|j: int| 0 <= j < i ==> (#[trigger] out@[j])@ == items@[j]->Str_0@,
        decreases items@.len() - i,
    {
        match &items[i] {
            Json::Str(s) => out.push(s.clone()),
            _ => {
                assert(!(items@[i as int] is Str));
                assert(!all_strings(items@));
                return Err(ExtractError::ElementType);
            },
        }
        i = i + 1;
    }
    assert(views(out@) =~= strings_of(items@));
    Ok(out)
}

} // verus!
