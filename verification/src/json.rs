//! JSON values as the flattening reads them, and the walk along a result
//! path.
use vstd::prelude::*;
use crate::text::texts;

verus! {

/// A JSON value. A number is held as the text of its literal; an object as
/// its members in order.
#[derive(Debug, PartialEq, Eq)]
pub enum Json {
    Null,
    Bool(bool),
    Number(String),
    Text(String),
    Array(Vec<Json>),
    Object(Vec<(String, Json)>),
}

/// The first member of a list of members that has the given name.
pub open spec fn first_named(members: Seq<(String, Json)>, name: Seq<char>) -> Option<Json>
    decreases members.len(),
{
    if members.len() == 0 {
        None
    } else if members[0].0@ == name {
        Some(members[0].1)
    } else {
        first_named(members.drop_first(), name)
    }
}

/// The member of an object with the given name; a value that is no object
/// has no members.
pub open spec fn member(value: Json, name: Seq<char>) -> Option<Json> {
    match value {
        Json::Object(members) => first_named(members@, name),
        _ => None,
    }
}

/// The value reached from `value` along `path`, one member per segment.
/// `None` stands for a value that is absent; below an absent value
/// everything is absent.
pub open spec fn resolved(value: Option<Json>, path: Seq<Seq<char>>) -> Option<Json>
    decreases path.len(),
{
    if path.len() == 0 {
        value
    } else {
        match resolved(value, path.drop_last()) {
            Some(parent) => member(parent, path.last()),
            None => None,
        }
    }
}

impl Json {
    /// The member with the given name, if this is an object that has one.
    pub fn get(&self, name: &String) -> (found: Option<&Json>)
        ensures
            match found {
                Some(value) => member(*self, name@) == Some(*value),
                None => member(*self, name@).is_none(),
            },
    {
        match self {
            Json::Object(members) => {
                let mut i: usize = 0;
                assert(members@.skip(0) =~= members@);
                while i < members.len()
                    invariant
                        i <= members.len(),
                        *self == Json::Object(*members),
                        first_named(members@, name@) == first_named(members@.skip(i as int), name@),
                    decreases members.len() - i,
                {
                    proof {
                        assert(members@.skip(i as int).drop_first() =~= members@.skip(i as int + 1));
                    }
                    if members[i].0 == *name {
                        assert(members@.skip(i as int)[0] == members@[i as int]);
                        return Some(&members[i].1);
                    }
                    i = i + 1;
                }
                None
            },
            _ => None,
        }
    }

    /// Whether this value is an array.
    pub fn is_array(&self) -> (b: bool)
        ensures
            b == (*self is Array),
    {
        match self {
            Json::Array(_) => true,
            _ => false,
        }
    }
}

/// One step of the walk: the member of a value that may be absent.
pub fn step<'a>(value: Option<&'a Json>, name: &String) -> (found: Option<&'a Json>)
    ensures
        as_value(found) == (match as_value(value) {
            Some(parent) => member(parent, name@),
            None => None,
        }),
{
    match value {
        Some(parent) => parent.get(name),
        None => None,
    }
}

/// A borrowed value as a value.
pub open spec fn as_value(r: Option<&Json>) -> Option<Json> {
    match r {
        Some(value) => Some(*value),
        None => None,
    }
}

/// Walks from `root` along the segments `from..to` of `path`.
pub fn walk<'a>(root: Option<&'a Json>, path: &Vec<String>, from: usize, to: usize) -> (found:
    Option<&'a Json>)
    requires
        from <= to <= path.len(),
    ensures
        as_value(found) == resolved(as_value(root), texts(path@).subrange(
            from as int,
            to as int,
        )),
{
    let ghost segments = texts(path@);
    let mut value = root;
    let mut k: usize = from;
    while k < to
        invariant
            from <= k <= to <= path.len(),
            segments == texts(path@),
            as_value(value) == resolved(as_value(root), segments.subrange(from as int, k as int)),
        decreases to - k,
    {
        proof {
            assert(segments.subrange(from as int, k as int + 1).drop_last() =~= segments.subrange(
                from as int,
                k as int,
            ));
            assert(segments.subrange(from as int, k as int + 1).last() == path@[k as int]@);
        }
        value = step(value, &path[k]);
        k = k + 1;
    }
    value
}

/// A value of a row: a JSON scalar or null.
#[derive(Debug, Clone, PartialEq, Eq)]
pub enum Scalar {
    Null,
    Bool(bool),
    Number(String),
    Text(String),
}

/// A value of a row as a plain value.
pub enum ScalarView {
    Null,
    Bool(bool),
    Number(Seq<char>),
    Text(Seq<char>),
}

impl View for Scalar {
    type V = ScalarView;

    open spec fn view(&self) -> ScalarView {
        match self {
            Scalar::Null => ScalarView::Null,
            Scalar::Bool(b) => ScalarView::Bool(*b),
            Scalar::Number(n) => ScalarView::Number(n@),
            Scalar::Text(t) => ScalarView::Text(t@),
        }
    }
}

/// What a row holds for a value of the response: the value where it is a
/// scalar, null where it is absent, null, an array or an object.
pub open spec fn scalar_of(value: Option<Json>) -> ScalarView {
    match value {
        Some(Json::Bool(b)) => ScalarView::Bool(b),
        Some(Json::Number(n)) => ScalarView::Number(n@),
        Some(Json::Text(t)) => ScalarView::Text(t@),
        _ => ScalarView::Null,
    }
}

/// The text of a row's value as a column hands it out: none for null, the
/// literal for a number, `true` or `false`, and a string's own text.
pub open spec fn text_of(value: ScalarView) -> Option<Seq<char>> {
    match value {
        ScalarView::Null => None,
        ScalarView::Bool(b) => Some(
            if b {
                "true"@
            } else {
                "false"@
            },
        ),
        ScalarView::Number(n) => Some(n),
        ScalarView::Text(t) => Some(t),
    }
}

impl Scalar {
    /// What a row holds for a value of the response.
    pub fn of(value: Option<&Json>) -> (cell: Scalar)
        ensures
            cell@ == scalar_of(as_value(value)),
    {
        match value {
            Some(Json::Bool(b)) => Scalar::Bool(*b),
            Some(Json::Number(n)) => Scalar::Number(n.clone()),
            Some(Json::Text(t)) => Scalar::Text(t.clone()),
            _ => Scalar::Null,
        }
    }

    /// A copy of this value.
    pub fn copy(&self) -> (cell: Scalar)
        ensures
            cell@ == self@,
    {
        match self {
            Scalar::Null => Scalar::Null,
            Scalar::Bool(b) => Scalar::Bool(*b),
            Scalar::Number(n) => Scalar::Number(n.clone()),
            Scalar::Text(t) => Scalar::Text(t.clone()),
        }
    }

    /// The text that a column hands out for this value.
    pub fn text(&self) -> (text: Option<String>)
        ensures
            match text {
                Some(t) => text_of(self@) == Some(t@),
                None => text_of(self@).is_none(),
            },
    {
        match self {
            Scalar::Null => None,
            Scalar::Bool(b) => Some(
                if *b {
                    "true".to_owned()
                } else {
                    "false".to_owned()
                },
            ),
            Scalar::Number(n) => Some(n.clone()),
            Scalar::Text(t) => Some(t.clone()),
        }
    }
}

} // verus!
