//! JSON values, and the crossing to and from `serde_json`.

use vstd::prelude::*;
use crate::text::same;

verus! {

/// A number that no 64-bit integer holds, as `serde_json` has it.
#[derive(Debug, PartialEq)]
pub struct Decimal {
    number: serde_json::Number,
}

impl View for Decimal {
    type V = serde_json::Number;

    closed spec fn view(&self) -> serde_json::Number {
        self.number
    }
}

impl Decimal {
    #[verifier::type_invariant]
    spec fn is_no_integer(self) -> bool {
        is_decimal(self.number)
    }

    fn copy(&self) -> (r: Decimal)
        ensures
            r@ == self@,
    {
        proof {
            use_type_invariant(self);
        }
        Decimal { number: self.number.clone() }
    }
}

/// A JSON value. A whole number is held as such; any other number is carried
/// through as it came.
#[derive(Debug, PartialEq)]
pub enum Json {
    Null,
    Bool(bool),
    UInt(u64),
    Int(i64),
    Decimal(Decimal),
    Text(String),
    List(Vec<Json>),
    Object(Vec<(String, Json)>),
}

/// What a JSON value is: the fields of an object have no order.
#[verifier::ext_equal]
pub enum JsonModel {
    Null,
    Bool(bool),
    Integer(int),
    Decimal(serde_json::Number),
    Text(Seq<char>),
    List(Seq<JsonModel>),
    Object(Map<Seq<char>, JsonModel>),
}

/// The object that fields make, written one after the other: a later field
/// replaces an earlier one of the same name.
pub open spec fn object(fields: Seq<(Seq<char>, JsonModel)>) -> Map<Seq<char>, JsonModel>
    decreases fields.len(),
{
    if fields.len() == 0 {
        Map::empty()
    } else {
        object(fields.drop_last()).insert(fields.last().0, fields.last().1)
    }
}

impl Json {
    /// What the value is.
    pub open spec fn model(self) -> JsonModel
        decreases self,
    {
        match self {
            Json::Null => JsonModel::Null,
            Json::Bool(b) => JsonModel::Bool(b),
            Json::UInt(n) => JsonModel::Integer(n as int),
            Json::Int(n) => JsonModel::Integer(n as int),
            Json::Decimal(n) => JsonModel::Decimal(n@),
            Json::Text(s) => JsonModel::Text(s@),
            Json::List(v) => JsonModel::List(Json::list_model(v@)),
            Json::Object(v) => JsonModel::Object(Json::object_model(v@)),
        }
    }

    pub open spec fn list_model(v: Seq<Json>) -> Seq<JsonModel>
        decreases v,
    {
        if v.len() == 0 {
            Seq::empty()
        } else {
            Json::list_model(v.drop_last()).push(v.last().model())
        }
    }

    pub open spec fn object_model(v: Seq<(String, Json)>) -> Map<Seq<char>, JsonModel>
        decreases v,
    {
        if v.len() == 0 {
            Map::empty()
        } else {
            Json::object_model(v.drop_last()).insert(v.last().0@, v.last().1.model())
        }
    }
}

impl View for Json {
    type V = JsonModel;

    open spec fn view(&self) -> JsonModel {
        self.model()
    }
}

/// The `serde_json` value type.
#[verifier::external_type_specification]
#[verifier::external_body]
pub struct ExValue(serde_json::Value);

/// The `serde_json` number type.
#[verifier::external_type_specification]
#[verifier::external_body]
pub struct ExNumber(serde_json::Number);

/// `serde_json::Number` as `Clone`: the copy is the number itself.
pub assume_specification[ <serde_json::Number as Clone>::clone ](n: &serde_json::Number) -> (r:
    serde_json::Number)
    ensures
        r == *n,
;

/// What a `serde_json` value holds.
pub uninterp spec fn value_model(v: serde_json::Value) -> JsonModel;

/// The number is neither an `as_u64` nor an `as_i64` of `serde_json::Number`.
pub uninterp spec fn is_decimal(n: serde_json::Number) -> bool;

/// What `serde_json::from_slice` reads from bytes: a value, or nothing where it
/// reports an error.
pub uninterp spec fn parsed(bytes: Seq<u8>) -> Option<JsonModel>;

/// The compact text that `serde_json` writes for a value.
pub uninterp spec fn written(v: JsonModel) -> Seq<char>;

/// What fields of a `serde_json` object hold.
spec fn held(v: Seq<(String, serde_json::Value)>) -> Seq<(Seq<char>, JsonModel)> {
    v.map_values(|x: (String, serde_json::Value)| (x.0@, value_model(x.1)))
}

/// One layer of a `serde_json` value.
enum Node {
    Null,
    Bool(bool),
    UInt(u64),
    Int(i64),
    Decimal(serde_json::Number),
    Text(String),
    List(Vec<serde_json::Value>),
    Object(Vec<(String, serde_json::Value)>),
}

impl Node {
    spec fn model(self) -> JsonModel {
        match self {
            Node::Null => JsonModel::Null,
            Node::Bool(b) => JsonModel::Bool(b),
            Node::UInt(n) => JsonModel::Integer(n as int),
            Node::Int(n) => JsonModel::Integer(n as int),
            Node::Decimal(n) => JsonModel::Decimal(n),
            Node::Text(s) => JsonModel::Text(s@),
            Node::List(v) => JsonModel::List(v@.map_values(|x: serde_json::Value| value_model(x))),
            Node::Object(v) => JsonModel::Object(object(held(v@))),
        }
    }
}

/// Calls `serde_json::from_slice`: gives back the value that it read, or nothing
/// where it reported an error. What it reads from given bytes is not said beyond
/// its being a function of them.
#[verifier::external_body]
fn read_value(bytes: &[u8]) -> (r: Option<serde_json::Value>)
    ensures
        parsed(bytes@) == (match r {
            Some(v) => Some(value_model(v)),
            None => None,
        }),
{
    serde_json::from_slice::<serde_json::Value>(bytes).ok()
}

/// Calls `to_string` of a `serde_json` value, which writes it without white
/// space. The text is a function of what the value holds: the fields of an
/// object are written in the order of their names.
#[verifier::external_body]
fn write_value(v: &serde_json::Value) -> (s: String)
    ensures
        s@ == written(value_model(*v)),
{
    v.to_string()
}

/// Tells the variants of a `serde_json` value apart. An object gives each of its
/// fields once. A number comes out as what `as_u64` says of it, or else as what
/// `as_i64` says; one of which both say nothing is handed over as it is.
#[verifier::external_body]
fn open_value(v: serde_json::Value) -> (r: Node)
    ensures
        r.model() == value_model(v),
        r matches Node::Object(f) ==> distinct(held(f@)),
        r matches Node::Decimal(n) ==> is_decimal(n),
{
    match v {
        serde_json::Value::Null => Node::Null,
        serde_json::Value::Bool(b) => Node::Bool(b),
        serde_json::Value::Number(n) => match (n.as_u64(), n.as_i64()) {
            (Some(u), _) => Node::UInt(u),
            (None, Some(i)) => Node::Int(i),
            (None, None) => Node::Decimal(n),
        },
        serde_json::Value::String(s) => Node::Text(s),
        serde_json::Value::Array(a) => Node::List(a),
        serde_json::Value::Object(o) => Node::Object(o.into_iter().collect()),
    }
}

/// Builds a `serde_json` value out of one layer. An integer goes through
/// `Value::from`, and the fields of an object, which all have different names, are
/// collected into a `serde_json::Map`, which then holds each of them. A number that
/// is handed over as it is holds no integer.
#[verifier::external_body]
fn close_value(n: Node) -> (v: serde_json::Value)
    requires
        n matches Node::Object(f) ==> distinct(held(f@)),
        n matches Node::Decimal(d) ==> is_decimal(d),
    ensures
        value_model(v) == n.model(),
{
    match n {
        Node::Null => serde_json::Value::Null,
        Node::Bool(b) => serde_json::Value::Bool(b),
        Node::UInt(u) => serde_json::Value::from(u),
        Node::Int(i) => serde_json::Value::from(i),
        Node::Decimal(n) => serde_json::Value::Number(n),
        Node::Text(s) => serde_json::Value::String(s),
        Node::List(a) => serde_json::Value::Array(a),
        Node::Object(o) => serde_json::Value::Object(o.into_iter().collect()),
    }
}

/// What the values of a list are.
pub open spec fn models(v: Seq<Json>) -> Seq<JsonModel> {
    v.map_values(|x: Json| x@)
}

/// What the fields of an object are.
pub open spec fn fields(v: Seq<(String, Json)>) -> Seq<(Seq<char>, JsonModel)> {
    v.map_values(|x: (String, Json)| (x.0@, x.1@))
}

/// A list holds its values, an object its fields.
pub broadcast proof fn lemma_view(j: Json)
    ensures
        #![trigger j@]
        j matches Json::List(v) ==> j@ == JsonModel::List(models(v@)),
        j matches Json::Object(v) ==> j@ == JsonModel::Object(object(fields(v@))),
{
    match j {
        Json::List(v) => {
            lemma_list_model(v@);
        },
        Json::Object(v) => {
            lemma_object_model(v@);
        },
        _ => {},
    }
}

proof fn lemma_list_model(v: Seq<Json>)
    ensures
        Json::list_model(v) == models(v),
    decreases v.len(),
{
    if v.len() > 0 {
        lemma_list_model(v.drop_last());
    }
    assert(Json::list_model(v) =~= models(v));
}

proof fn lemma_object_model(v: Seq<(String, Json)>)
    ensures
        Json::object_model(v) == object(fields(v)),
    decreases v.len(),
{
    if v.len() > 0 {
        lemma_object_model(v.drop_last());
        assert(fields(v).drop_last() =~= fields(v.drop_last()));
        assert(fields(v).last() == (v.last().0@, v.last().1@));
    }
}

/// No field name occurs twice.
pub open spec fn distinct(f: Seq<(Seq<char>, JsonModel)>) -> bool {
    forall|i: int, j: int| 0 <= i < j < f.len() ==> (#[trigger] f[i]).0 != (#[trigger] f[j]).0
}

/// An object has finitely many fields, and holds each of distinct fields.
pub proof fn lemma_object(f: Seq<(Seq<char>, JsonModel)>)
    ensures
        object(f).dom().finite(),
        distinct(f) ==> forall|i: int|
            0 <= i < f.len() ==> object(f).contains_key((#[trigger] f[i]).0) && object(f)[f[i].0]
                == f[i].1,
        forall|k: Seq<char>| #[trigger]
            object(f).contains_key(k) <==> exists|i: int| 0 <= i < f.len() && f[i].0 == k,
    decreases f.len(),
{
    if f.len() > 0 {
        let g = f.drop_last();
        lemma_object(g);
        if distinct(f) {
            assert(distinct(g)) by {
                assert forall|i: int, j: int| 0 <= i < j < g.len() implies (#[trigger] g[i]).0 != (
                #[trigger] g[j]).0 by {
                    assert(f[i].0 != f[j].0);
                }
            }
            assert forall|i: int| 0 <= i < f.len() implies object(f).contains_key(
                (#[trigger] f[i]).0,
            ) && object(f)[f[i].0] == f[i].1 by {
                if i < g.len() {
                    assert(g[i] == f[i]);
                    assert(f[i].0 != f[f.len() - 1].0);
                }
            }
        }
        assert forall|k: Seq<char>| #[trigger] object(f).contains_key(k) <==> exists|i: int|
            0 <= i < f.len() && f[i].0 == k by {
            if object(f).contains_key(k) {
                if k == f.last().0 {
                    assert(f[f.len() - 1].0 == k);
                } else {
                    let i = choose|i: int| 0 <= i < g.len() && g[i].0 == k;
                    assert(f[i].0 == k);
                }
            }
            if exists|i: int| 0 <= i < f.len() && f[i].0 == k {
                let i = choose|i: int| 0 <= i < f.len() && f[i].0 == k;
                if i < g.len() {
                    assert(g[i].0 == k);
                }
            }
        }
    }
}

impl Json {
    /// The value that a `serde_json` value holds.
    pub fn from_value(v: serde_json::Value) -> (j: Json)
        ensures
            j@ == value_model(v),
        decreases value_model(v),
    {
        broadcast use lemma_view;

        match open_value(v) {
            Node::Null => Json::Null,
            Node::Bool(b) => Json::Bool(b),
            Node::UInt(n) => Json::UInt(n),
            Node::Int(n) => Json::Int(n),
            Node::Decimal(number) => Json::Decimal(Decimal { number }),
            Node::Text(s) => Json::Text(s),
            Node::List(items) => {
                let ghost want = items@.map_values(|x: serde_json::Value| value_model(x));
                let mut out: Vec<Json> = Vec::new();
                for x in it: items
                    invariant
                        out@.len() == it.index(),
                        want == it.seq().map_values(|x: serde_json::Value| value_model(x)),
                        models(out@) == want.take(it.index() as int),
                        value_model(v) == JsonModel::List(want),
                {
                    assert(want[it.index() as int] == value_model(x));
                    assert(decreases_to!(value_model(v) => value_model(v)->List_0));
                    assert(decreases_to!(want => want[it.index() as int]));
                    out.push(Json::from_value(x));
                    assert(models(out@) =~= want.take(it.index() as int + 1));
                }
                assert(models(out@) =~= want);
                Json::List(out)
            },
            Node::Object(items) => {
                let ghost want = held(items@);
                proof {
                    lemma_object(want);
                }
                let mut out: Vec<(String, Json)> = Vec::new();
                for x in it: items
                    invariant
                        out@.len() == it.index(),
                        want == held(it.seq()),
                        fields(out@) == want.take(it.index() as int),
                        object(want).dom().finite(),
                        forall|i: int|
                            0 <= i < want.len() ==> object(want).contains_key((#[trigger] want[i]).0)
                                && object(want)[want[i].0] == want[i].1,
                        value_model(v) == JsonModel::Object(object(want)),
                {
                    assert(want[it.index() as int] == (x.0@, value_model(x.1)));
                    assert(decreases_to!(value_model(v) => value_model(v)->Object_0));
                    assert(decreases_to!(object(want) => object(want)[x.0@]));
                    out.push((x.0, Json::from_value(x.1)));
                    assert(fields(out@) =~= want.take(it.index() as int + 1));
                }
                assert(fields(out@) =~= want);
                Json::Object(out)
            },
        }
    }

    /// The `serde_json` value that holds the value.
    pub fn into_value(self) -> (v: serde_json::Value)
        ensures
            value_model(v) == self@,
        decreases self,
    {
        broadcast use lemma_view;

        let ghost whole = self;
        match self {
            Json::Null => close_value(Node::Null),
            Json::Bool(b) => close_value(Node::Bool(b)),
            Json::UInt(n) => close_value(Node::UInt(n)),
            Json::Int(n) => close_value(Node::Int(n)),
            Json::Decimal(n) => {
                proof {
                    use_type_invariant(&n);
                }
                close_value(Node::Decimal(n.number))
            },
            Json::Text(s) => close_value(Node::Text(s)),
            Json::List(items) => {
                let ghost all = items@;
                assert(decreases_to!(whole => items));
                assert(decreases_to!(items => items@));
                let mut out: Vec<serde_json::Value> = Vec::new();
                for x in it: items
                    invariant
                        out@.len() == it.index(),
                        it.seq() == all,
                        decreases_to!(whole => all),
                        whole == self,
                        out@.map_values(|x: serde_json::Value| value_model(x)) == models(all).take(
                            it.index() as int,
                        ),
                {
                    assert(decreases_to!(all => all[it.index() as int]));
                    out.push(x.into_value());
                    assert(out@.map_values(|x: serde_json::Value| value_model(x)) =~= models(
                        all,
                    ).take(it.index() as int + 1));
                }
                assert(out@.map_values(|x: serde_json::Value| value_model(x)) =~= models(all));
                close_value(Node::List(out))
            },
            Json::Object(items) => {
                let ghost all = items@;
                assert(decreases_to!(whole => items));
                assert(decreases_to!(items => items@));
                let mut out: Vec<(String, serde_json::Value)> = Vec::new();
                assert(held(out@) =~= fields(all).take(0));
                for x in it: items
                    invariant
                        it.seq() == all,
                        decreases_to!(whole => all),
                        whole == self,
                        distinct(held(out@)),
                        object(held(out@)) == object(fields(all).take(it.index() as int)),
                {
                    let ghost i = it.index() as int;
                    assert(decreases_to!(all => all[i]));
                    assert(decreases_to!(all[i] => all[i].1));
                    assert(fields(all).take(i + 1).drop_last() =~= fields(all).take(i));
                    assert(fields(all).take(i + 1).last() == (x.0@, x.1@));
                    put_value(&mut out, x.0, x.1.into_value());
                }
                assert(fields(all).take(all.len() as int) =~= fields(all));
                close_value(Node::Object(out))
            },
        }
    }

    /// Reads a value from JSON text; nothing where the bytes are not one.
    pub fn read(bytes: &[u8]) -> (r: Option<Json>)
        ensures
            parsed(bytes@) == (match r {
                Some(j) => Some(j@),
                None => None,
            }),
    {
        match read_value(bytes) {
            Some(v) => Some(Json::from_value(v)),
            None => None,
        }
    }

    /// The compact JSON text of the value.
    pub fn write(self) -> (s: String)
        ensures
            s@ == written(self@),
    {
        write_value(&self.into_value())
    }

    /// A value that is the same.
    pub fn copy(&self) -> (r: Json)
        ensures
            r@ == self@,
        decreases self,
    {
        broadcast use lemma_view;

        match self {
            Json::Null => Json::Null,
            Json::Bool(b) => Json::Bool(*b),
            Json::UInt(n) => Json::UInt(*n),
            Json::Int(n) => Json::Int(*n),
            Json::Decimal(n) => Json::Decimal(n.copy()),
            Json::Text(s) => Json::Text(s.clone()),
            Json::List(items) => {
                let mut out: Vec<Json> = Vec::new();
                let mut i: usize = 0;
                while i < items.len()
                    invariant
                        i <= items@.len(),
                        *self == Json::List(*items),
                        models(out@) == models(items@).take(i as int),
                        out@.len() == i,
                    decreases items@.len() - i,
                {
                    assert(decreases_to!(*self => self->List_0));
                    assert(decreases_to!(*items => items@));
                    assert(decreases_to!(items@ => items@[i as int]));
                    out.push(items[i].copy());
                    assert(models(out@) =~= models(items@).take(i + 1));
                    i += 1;
                }
                assert(models(out@) =~= models(items@));
                Json::List(out)
            },
            Json::Object(items) => {
                let mut out: Vec<(String, Json)> = Vec::new();
                let mut i: usize = 0;
                while i < items.len()
                    invariant
                        i <= items@.len(),
                        *self == Json::Object(*items),
                        fields(out@) == fields(items@).take(i as int),
                        out@.len() == i,
                    decreases items@.len() - i,
                {
                    assert(decreases_to!(*self => self->Object_0));
                    assert(decreases_to!(*items => items@));
                    assert(decreases_to!(items@ => items@[i as int]));
                    assert(decreases_to!(items@[i as int] => items@[i as int].1));
                    out.push((items[i].0.clone(), items[i].1.copy()));
                    assert(fields(out@) =~= fields(items@).take(i + 1));
                    i += 1;
                }
                assert(fields(out@) =~= fields(items@));
                Json::Object(out)
            },
        }
    }

    /// The field of that name, where the value is an object that has it.
    pub fn get(&self, name: &str) -> (r: Option<&Json>)
        ensures
            match r {
                Some(j) => self@ is Object && self@->Object_0.contains_key(name@)
                    && self@->Object_0[name@] == j@,
                None => !(self@ is Object && self@->Object_0.contains_key(name@)),
            },
    {
        broadcast use lemma_view;

        match self {
            Json::Object(items) => {
                let mut i: usize = items.len();
                proof {
                    lemma_object(fields(items@));
                }
                while i > 0
                    invariant
                        i <= items@.len(),
                        forall|j: int| i <= j < items@.len() ==> (#[trigger] items@[j]).0@ != name@,
                        forall|k: Seq<char>| #[trigger]
                            object(fields(items@)).contains_key(k) <==> exists|i: int|
                                0 <= i < fields(items@).len() && fields(items@)[i].0 == k,
                        self@ == JsonModel::Object(object(fields(items@))),
                    decreases i,
                {
                    i -= 1;
                    if same(items[i].0.as_str(), name) {
                        proof {
                            assert(fields(items@)[i as int].0 == name@);
                            lemma_last_field(fields(items@), i as int);
                        }
                        return Some(&items[i].1);
                    }
                }
                assert(forall|i: int|
                    0 <= i < fields(items@).len() ==> fields(items@)[i].0 == items@[i].0@);
                None
            },
            _ => None,
        }
    }

    /// The text, where the value is one.
    pub fn as_text(&self) -> (r: Option<&String>)
        ensures
            match r {
                Some(s) => self@ == JsonModel::Text(s@),
                None => !(self@ is Text),
            },
    {
        match self {
            Json::Text(s) => Some(s),
            _ => None,
        }
    }

    /// Gives an object a field, in the place of any of the same name. A value that
    /// is no object becomes one that has this field alone.
    pub fn put(&mut self, name: &str, v: Json)
        ensures
            final(self)@ == JsonModel::Object(as_map(old(self)@).insert(name@, v@)),
    {
        broadcast use lemma_view;

        let ghost before = *self;
        if let Json::Object(items) = self {
            let ghost held = items@;
            items.push((name.to_string(), v));
            assert(fields(items@).drop_last() =~= fields(held));
            assert(fields(items@).last() == (name@, v@));
        } else {
            let f = vec![(name.to_string(), v)];
            let ghost none = fields(f@).drop_last();
            assert(none =~= Seq::<(Seq<char>, JsonModel)>::empty());
            assert(object(none) == Map::<Seq<char>, JsonModel>::empty());
            assert(fields(f@).last() == (name@, v@));
            *self = Json::Object(f);
            assert(!(before@ is Object));
        }
    }
}

/// Gives fields of different names one more, in the place of any of the same name.
fn put_value(out: &mut Vec<(String, serde_json::Value)>, name: String, v: serde_json::Value)
    requires
        distinct(held(old(out)@)),
    ensures
        distinct(held(final(out)@)),
        object(held(final(out)@)) == object(held(old(out)@)).insert(name@, value_model(v)),
{
    let ghost before = held(out@);
    let mut i: usize = 0;
    while i < out.len()
        invariant
            i <= out@.len(),
            out@ == old(out)@,
            before == held(out@),
            distinct(before),
            forall|j: int| 0 <= j < i ==> (#[trigger] before[j]).0 != name@,
        decreases out@.len() - i,
    {
        assert(before[i as int].0 == out@[i as int].0@);
        if same(out[i].0.as_str(), name.as_str()) {
            out.set(i, (name, v));
            proof {
                lemma_field_replaced(before, i as int, value_model(v));
                assert(held(out@) =~= before.update(i as int, (name@, value_model(v))));
            }
            return;
        }
        i += 1;
    }
    out.push((name, v));
    proof {
        let after = held(out@);
        assert(after =~= before.push((name@, value_model(v))));
        assert(after.drop_last() =~= before);
        assert forall|i: int, j: int| 0 <= i < j < after.len() implies (#[trigger] after[i]).0 != (
        #[trigger] after[j]).0 by {
            assert(after[i] == before[i]);
            if j < before.len() {
                assert(after[j] == before[j]);
            }
        }
    }
}

proof fn lemma_field_replaced(f: Seq<(Seq<char>, JsonModel)>, i: int, v: JsonModel)
    requires
        distinct(f),
        0 <= i < f.len(),
    ensures
        distinct(f.update(i, (f[i].0, v))),
        object(f.update(i, (f[i].0, v))) == object(f).insert(f[i].0, v),
{
    let g = f.update(i, (f[i].0, v));
    assert forall|a: int, b: int| 0 <= a < b < g.len() implies (#[trigger] g[a]).0 != (
    #[trigger] g[b]).0 by {
        assert(f[a].0 != f[b].0);
    }
    lemma_object(f);
    lemma_object(g);
    let m = object(g);
    let n = object(f).insert(f[i].0, v);
    assert forall|k: Seq<char>| #[trigger] m.contains_key(k) == n.contains_key(k) by {
        if m.contains_key(k) {
            let a = choose|a: int| 0 <= a < g.len() && g[a].0 == k;
            assert(f[a].0 == k);
        }
        if object(f).contains_key(k) {
            let a = choose|a: int| 0 <= a < f.len() && f[a].0 == k;
            assert(g[a].0 == k);
        }
        assert(g[i].0 == f[i].0);
    }
    assert forall|k: Seq<char>| #[trigger] m.contains_key(k) implies m[k] == n[k] by {
        let a = choose|a: int| 0 <= a < g.len() && g[a].0 == k;
        assert(m[g[a].0] == g[a].1);
        assert(object(f)[f[a].0] == f[a].1);
        if a != i {
            if a < i {
                assert(f[a].0 != f[i].0);
            } else {
                assert(f[i].0 != f[a].0);
            }
        }
    }
    assert(m =~= n);
}

/// The fields of an object; none for another value.
pub open spec fn as_map(v: JsonModel) -> Map<Seq<char>, JsonModel> {
    match v {
        JsonModel::Object(m) => m,
        _ => Map::empty(),
    }
}

/// A field that no later one replaces is what the object holds under its name.
pub proof fn lemma_last_field(f: Seq<(Seq<char>, JsonModel)>, i: int)
    requires
        0 <= i < f.len(),
        forall|j: int| i < j < f.len() ==> (#[trigger] f[j]).0 != f[i].0,
    ensures
        object(f).contains_key(f[i].0),
        object(f)[f[i].0] == f[i].1,
    decreases f.len(),
{
    if i < f.len() - 1 {
        let g = f.drop_last();
        assert(g[i] == f[i]);
        assert forall|j: int| i < j < g.len() implies (#[trigger] g[j]).0 != g[i].0 by {
            assert(g[j] == f[j]);
        }
        lemma_last_field(g, i);
        assert(f[f.len() - 1].0 != f[i].0);
    }
}

/// A field of an object.
pub fn field(name: &str, v: Json) -> (r: (String, Json))
    ensures
        r.0@ == name@,
        r.1 == v,
{
    (name.to_string(), v)
}

/// A text, as a value.
pub fn text(s: &str) -> (r: Json)
    ensures
        r@ == JsonModel::Text(s@),
{
    Json::Text(s.to_string())
}

/// Texts, as a list.
pub fn text_list(v: &Vec<String>) -> (r: Json)
    ensures
        r@ == JsonModel::List(texts_model(crate::ids::texts(v@))),
{
    broadcast use lemma_view;

    let mut out: Vec<Json> = Vec::new();
    let mut i: usize = 0;
    while i < v.len()
        invariant
            i <= v@.len(),
            out@.len() == i,
            models(out@) == texts_model(crate::ids::texts(v@)).take(i as int),
        decreases v@.len() - i,
    {
        out.push(Json::Text(v[i].clone()));
        assert(models(out@) =~= texts_model(crate::ids::texts(v@)).take(i + 1));
        i += 1;
    }
    assert(models(out@) =~= texts_model(crate::ids::texts(v@)));
    Json::List(out)
}

pub open spec fn texts_model(v: Seq<Seq<char>>) -> Seq<JsonModel> {
    v.map_values(|s: Seq<char>| JsonModel::Text(s))
}

/// A text or null, as a value.
pub open spec fn opt_text_model(s: Option<Seq<char>>) -> JsonModel {
    match s {
        Some(s) => JsonModel::Text(s),
        None => JsonModel::Null,
    }
}

pub fn opt_text(s: &Option<String>) -> (r: Json)
    ensures
        r@ == opt_text_model(crate::config::opt_text(*s)),
{
    match s {
        Some(s) => Json::Text(s.clone()),
        None => Json::Null,
    }
}

/// A number or null, as a value.
pub open spec fn opt_number_model(n: Option<int>) -> JsonModel {
    match n {
        Some(n) => JsonModel::Integer(n),
        None => JsonModel::Null,
    }
}

pub fn opt_number(n: Option<u64>) -> (r: Json)
    ensures
        r@ == opt_number_model(
            match n {
                Some(n) => Some(n as int),
                None => None,
            },
        ),
{
    match n {
        Some(n) => Json::UInt(n),
        None => Json::Null,
    }
}

/// An object of the given fields.
pub fn object_of(f: Vec<(String, Json)>) -> (r: Json)
    ensures
        r@ == JsonModel::Object(object(fields(f@))),
{
    broadcast use lemma_view;

    Json::Object(f)
}

/// A list of the given values.
pub fn list_of(v: Vec<Json>) -> (r: Json)
    ensures
        r@ == JsonModel::List(models(v@)),
{
    broadcast use lemma_view;

    Json::List(v)
}

/// An object is built field by field: one more is what it holds under that name,
/// whatever stood there before, and changes no other.
pub proof fn law_later_field_stands(
    f: Seq<(Seq<char>, JsonModel)>,
    name: Seq<char>,
    v: JsonModel,
    other: Seq<char>,
)
    ensures
        ({
            let before = object(f);
            let after = object(f.push((name, v)));
            &&& after.contains_pair(name, v)
            &&& other != name ==> after.contains_key(other) == before.contains_key(other)
                && after[other] == before[other]
            &&& f.len() == 0 ==> !before.contains_key(other)
        }),
{
    assert(f.push((name, v)).drop_last() =~= f);
}

} // verus!
