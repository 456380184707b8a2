//! The structured-value type that request payloads, reply bodies and audit
//! entries are made of, together with its mathematical model.

use vstd::prelude::*;

verus! {

broadcast use vstd::seq::axiom_seq_index_decreases, vstd::seq::axiom_seq_subrange_decreases,
    vstd::std_specs::vec::axiom_vec_decreases_to_view;

/// The mathematical model of a structured value: strings are sequences of
/// characters, arrays and objects are sequences.
pub enum JsonModel {
    Null,
    Bool(bool),
    Num(u64),
    Str(Seq<char>),
    Arr(Seq<JsonModel>),
    Obj(Seq<(Seq<char>, JsonModel)>),
}

/// A structured value: the open map/array/scalar union that command payloads
/// and reply bodies are made of.  Command semantics are opaque to this core,
/// so no fixed schema is imposed; the algorithms validate only the fields
/// they depend on.
#[derive(Debug)]
pub enum JsonValue {
    Null,
    Bool(bool),
    Num(u64),
    Str(String),
    Arr(Vec<JsonValue>),
    Obj(Vec<(String, JsonValue)>),
}

/// The model of an array's elements.
pub open spec fn arr_model(items: Seq<JsonValue>) -> Seq<JsonModel>
    decreases items,
{
    if items.len() == 0 {
        Seq::empty()
    } else {
        arr_model(items.drop_last()).push(items.last()@)
    }
}

/// The model of an object's members.
pub open spec fn obj_model(members: Seq<(String, JsonValue)>) -> Seq<(Seq<char>, JsonModel)>
    decreases members,
{
    if members.len() == 0 {
        Seq::empty()
    } else {
        obj_model(members.drop_last()).push((members.last().0@, members.last().1@))
    }
}

impl View for JsonValue {
    type V = JsonModel;

    open spec fn view(&self) -> JsonModel
        decreases self,
    {
        match self {
            JsonValue::Null => JsonModel::Null,
            JsonValue::Bool(b) => JsonModel::Bool(*b),
            JsonValue::Num(n) => JsonModel::Num(*n),
            JsonValue::Str(s) => JsonModel::Str(s@),
            JsonValue::Arr(items) => JsonModel::Arr(arr_model(items@)),
            JsonValue::Obj(members) => JsonModel::Obj(obj_model(members@)),
        }
    }
}

/// The elements of an array model are the models of the array's elements.
pub broadcast proof fn lemma_arr_model(items: Seq<JsonValue>)
    ensures
        #[trigger] arr_model(items).len() == items.len(),
        forall|i: int|
            #![trigger arr_model(items)[i]]
            #![trigger items[i]@]
            0 <= i < items.len() ==> arr_model(items)[i] == items[i]@,
    decreases items,
{
    if items.len() > 0 {
        lemma_arr_model(items.drop_last());
        assert(arr_model(items) == arr_model(items.drop_last()).push(items.last()@));
        assert forall|i: int| 0 <= i < items.len() implies arr_model(items)[i] == items[i]@ by {
            if i < items.len() - 1 {
                assert(items.drop_last()[i] == items[i]);
                assert(arr_model(items)[i] == arr_model(items.drop_last())[i]);
            }
        }
    }
}

/// The members of an object model are the models of the object's members.
pub broadcast proof fn lemma_obj_model(members: Seq<(String, JsonValue)>)
    ensures
        #[trigger] obj_model(members).len() == members.len(),
        forall|i: int|
            #![trigger obj_model(members)[i]]
            #![trigger members[i].0@]
            0 <= i < members.len() ==> obj_model(members)[i] == (members[i].0@, members[i].1@),
    decreases members,
{
    if members.len() > 0 {
        lemma_obj_model(members.drop_last());
        assert(obj_model(members) == obj_model(members.drop_last()).push(
            (members.last().0@, members.last().1@),
        ));
        assert forall|i: int| 0 <= i < members.len() implies obj_model(members)[i] == (
            members[i].0@,
            members[i].1@,
        ) by {
            if i < members.len() - 1 {
                assert(members.drop_last()[i] == members[i]);
                assert(obj_model(members)[i] == obj_model(members.drop_last())[i]);
            }
        }
    }
}

/// The value of the first member with the given key, if any.
pub open spec fn lookup_members(ms: Seq<(Seq<char>, JsonModel)>, key: Seq<char>) -> Option<
    JsonModel,
>
    decreases ms.len(),
{
    if ms.len() == 0 {
        None
    } else if ms[0].0 == key {
        Some(ms[0].1)
    } else {
        lookup_members(ms.drop_first(), key)
    }
}

/// Field lookup: the value under `key` when the value is an object that has
/// such a member, `None` otherwise.
pub open spec fn json_get(m: JsonModel, key: Seq<char>) -> Option<JsonModel> {
    match m {
        JsonModel::Obj(ms) => lookup_members(ms, key),
        _ => None,
    }
}

/// A lookup skips over members whose keys differ.
pub proof fn lemma_lookup_skip(ms: Seq<(Seq<char>, JsonModel)>, key: Seq<char>, i: int)
    requires
        0 <= i <= ms.len(),
        forall|j: int| 0 <= j < i ==> ms[j].0 != key,
    ensures
        lookup_members(ms, key) == lookup_members(ms.skip(i), key),
    decreases i,
{
    if i > 0 {
        assert(ms.len() > 0);
        assert(ms[0].0 != key);
        assert(lookup_members(ms, key) == lookup_members(ms.drop_first(), key));
        assert forall|j: int| 0 <= j < i - 1 implies ms.drop_first()[j].0 != key by {
            assert(ms.drop_first()[j] == ms[j + 1]);
        }
        lemma_lookup_skip(ms.drop_first(), key, i - 1);
        assert(lookup_members(ms.drop_first(), key) == lookup_members(
            ms.drop_first().skip(i - 1),
            key,
        ));
        assert(ms.drop_first().skip(i - 1) =~= ms.skip(i));
        assert(lookup_members(ms.drop_first().skip(i - 1), key) == lookup_members(
            ms.skip(i),
            key,
        ));
    } else {
        assert(ms.skip(0) =~= ms);
    }
}

impl JsonValue {
    /// Look up a member of an object by key; `None` when the value is not an
    /// object or has no such member.
    pub fn obj_get<'a>(&'a self, key: &str) -> (r: Option<&'a JsonValue>)
        ensures
            match r {
                Some(v) => json_get(self@, key@) == Some(v@),
                None => json_get(self@, key@) is None,
            },
    {
        broadcast use lemma_obj_model;

        match self {
            JsonValue::Obj(members) => {
                let ghost ms = obj_model(members@);
                assert(self@ == JsonModel::Obj(ms));
                let n = members.len();
                let mut i: usize = 0;
                while i < n
                    invariant
                        self@ == JsonModel::Obj(ms),
                        n == members@.len(),
                        ms == obj_model(members@),
                        ms.len() == n,
                        forall|j: int| 0 <= j < n ==> ms[j] == (
                            #[trigger] members@[j].0@,
                            members@[j].1@,
                        ),
                        0 <= i <= n,
                        forall|j: int| 0 <= j < i ==> ms[j].0 != key@,
                    decreases n - i,
                {
                    if crate::text::str_eq(members[i].0.as_str(), key) {
                        proof {
                            lemma_lookup_skip(ms, key@, i as int);
                            assert(ms.skip(i as int)[0] == ms[i as int]);
                            assert(ms[i as int].0 == key@);
                            assert(lookup_members(ms.skip(i as int), key@) == Some(
                                ms[i as int].1,
                            ));
                        }
                        return Some(&members[i].1);
                    }
                    i = i + 1;
                }
                proof {
                    lemma_lookup_skip(ms, key@, n as int);
                    assert(ms.skip(n as int) =~= Seq::empty());
                }
                None
            },
            _ => None,
        }
    }

    /// A copy with the same model.
    #[verifier::loop_isolation(false)]
    pub fn deep_copy(&self) -> (r: JsonValue)
        ensures
            r@ == self@,
        decreases self,
    {
        broadcast use lemma_arr_model, lemma_obj_model;

        match self {
            JsonValue::Null => JsonValue::Null,
            JsonValue::Bool(b) => JsonValue::Bool(*b),
            JsonValue::Num(n) => JsonValue::Num(*n),
            JsonValue::Str(s) => JsonValue::Str(s.clone()),
            JsonValue::Arr(items) => {
                let n = items.len();
                let mut out: Vec<JsonValue> = Vec::new();
                let mut i: usize = 0;
                while i < n
                    invariant
                        n == items@.len(),
                        0 <= i <= n,
                        out@.len() == i,
                        forall|j: int| 0 <= j < i ==> #[trigger] out@[j]@ == items@[j]@,
                    decreases n - i,
                {
                    out.push(items[i].deep_copy());
                    i = i + 1;
                }
                proof {
                    lemma_arr_model(out@);
                    lemma_arr_model(items@);
                    assert(arr_model(out@) =~= arr_model(items@));
                }
                JsonValue::Arr(out)
            },
            JsonValue::Obj(members) => {
                let n = members.len();
                let mut out: Vec<(String, JsonValue)> = Vec::new();
                let mut i: usize = 0;
                while i < n
                    invariant
                        n == members@.len(),
                        0 <= i <= n,
                        out@.len() == i,
                        forall|j: int| 0 <= j < i ==> #[trigger] out@[j].0@ == members@[j].0@
                            && out@[j].1@ == members@[j].1@,
                    decreases n - i,
                {
                    out.push((members[i].0.clone(), members[i].1.deep_copy()));
                    i = i + 1;
                }
                proof {
                    lemma_obj_model(out@);
                    lemma_obj_model(members@);
                    assert(obj_model(out@) =~= obj_model(members@));
                }
                JsonValue::Obj(out)
            },
        }
    }

    /// Whether two values have the same model: the same structure with the
    /// same strings and numbers throughout.
    #[verifier::loop_isolation(false)]
    pub fn deep_eq(&self, other: &JsonValue) -> (r: bool)
        ensures
            r == (self@ == other@),
        decreases self,
    {
        broadcast use lemma_arr_model, lemma_obj_model;

        match (self, other) {
            (JsonValue::Null, JsonValue::Null) => true,
            (JsonValue::Bool(a), JsonValue::Bool(b)) => *a == *b,
            (JsonValue::Num(a), JsonValue::Num(b)) => *a == *b,
            (JsonValue::Str(a), JsonValue::Str(b)) => crate::text::str_eq(a.as_str(), b.as_str()),
            (JsonValue::Arr(xs), JsonValue::Arr(ys)) => {
                let n = xs.len();
                if n != ys.len() {
                    proof {
                        lemma_arr_model(xs@);
                        lemma_arr_model(ys@);
                        assert(arr_model(xs@).len() != arr_model(ys@).len());
                    }
                    return false;
                }
                let mut i: usize = 0;
                while i < n
                    invariant
                        n == xs@.len(),
                        n == ys@.len(),
                        0 <= i <= n,
                        forall|j: int| 0 <= j < i ==> #[trigger] xs@[j]@ == ys@[j]@,
                    decreases n - i,
                {
                    if !xs[i].deep_eq(&ys[i]) {
                        proof {
                            lemma_arr_model(xs@);
                            lemma_arr_model(ys@);
                            assert(arr_model(xs@)[i as int] != arr_model(ys@)[i as int]);
                        }
                        return false;
                    }
                    i = i + 1;
                }
                proof {
                    lemma_arr_model(xs@);
                    lemma_arr_model(ys@);
                    assert(arr_model(xs@) =~= arr_model(ys@));
                }
                true
            },
            (JsonValue::Obj(xs), JsonValue::Obj(ys)) => {
                let n = xs.len();
                if n != ys.len() {
                    proof {
                        lemma_obj_model(xs@);
                        lemma_obj_model(ys@);
                        assert(obj_model(xs@).len() != obj_model(ys@).len());
                    }
                    return false;
                }
                let mut i: usize = 0;
                while i < n
                    invariant
                        n == xs@.len(),
                        n == ys@.len(),
                        0 <= i <= n,
                        forall|j: int| 0 <= j < i ==> #[trigger] xs@[j].0@ == ys@[j].0@
                            && xs@[j].1@ == ys@[j].1@,
                    decreases n - i,
                {
                    if !crate::text::str_eq(xs[i].0.as_str(), ys[i].0.as_str()) {
                        proof {
                            lemma_obj_model(xs@);
                            lemma_obj_model(ys@);
                            assert(obj_model(xs@)[i as int] != obj_model(ys@)[i as int]);
                        }
                        return false;
                    }
                    if !xs[i].1.deep_eq(&ys[i].1) {
                        proof {
                            lemma_obj_model(xs@);
                            lemma_obj_model(ys@);
                            assert(obj_model(xs@)[i as int] != obj_model(ys@)[i as int]);
                        }
                        return false;
                    }
                    i = i + 1;
                }
                proof {
                    lemma_obj_model(xs@);
                    lemma_obj_model(ys@);
                    assert(obj_model(xs@) =~= obj_model(ys@));
                }
                true
            },
            _ => {
                proof {
                    assert(self@ != other@);
                }
                false
            },
        }
    }

    /// Whether an object has a member with the given key.
    pub fn obj_has(&self, key: &str) -> (r: bool)
        ensures
            r == (json_get(self@, key@) is Some),
    {
        self.obj_get(key).is_some()
    }
}

} // verus!
