//! What an evaluation yields.
use vstd::prelude::*;
use vstd::std_specs::cmp::PartialEqSpec;
use vstd::std_specs::convert::FromSpec;

verus! {

/// A value that was produced by evaluated code: a piece of text, no value at
/// all, or the mark that the evaluation failed.
#[derive(Debug)]
pub enum JavaScriptValue {
    Error,
    Empty,
    Value(String),
}

/// The mathematical model of a [`JavaScriptValue`].
pub enum ValueView {
    Error,
    Empty,
    Value(Seq<char>),
}

impl View for JavaScriptValue {
    type V = ValueView;

    open spec fn view(&self) -> ValueView {
        match self {
            JavaScriptValue::Error => ValueView::Error,
            JavaScriptValue::Empty => ValueView::Empty,
            JavaScriptValue::Value(text) => ValueView::Value(text@),
        }
    }
}

/// The models of several values, in order.
pub open spec fn values_view(values: Seq<JavaScriptValue>) -> Seq<ValueView> {
    values.map_values(|v: JavaScriptValue| v@)
}

impl Clone for JavaScriptValue {
    fn clone(&self) -> (copy: Self)
        ensures
            copy == *self,
    {
        match self {
            JavaScriptValue::Error => JavaScriptValue::Error,
            JavaScriptValue::Empty => JavaScriptValue::Empty,
            JavaScriptValue::Value(text) => JavaScriptValue::Value(text.clone()),
        }
    }
}

impl PartialEq for JavaScriptValue {
    fn eq(&self, other: &Self) -> (same: bool)
        ensures
            match (*self, *other) {
                (JavaScriptValue::Error, JavaScriptValue::Error) => same,
                (JavaScriptValue::Empty, JavaScriptValue::Empty) => same,
                (JavaScriptValue::Value(a), JavaScriptValue::Value(b)) => same == (a@ == b@),
                _ => !same,
            },
    {
        match (self, other) {
            (JavaScriptValue::Error, JavaScriptValue::Error) => true,
            (JavaScriptValue::Empty, JavaScriptValue::Empty) => true,
            (JavaScriptValue::Value(a), JavaScriptValue::Value(b)) => *a == *b,
            _ => false,
        }
    }
}

impl vstd::std_specs::cmp::PartialEqSpecImpl for JavaScriptValue {
    open spec fn obeys_eq_spec() -> bool {
        true
    }

    open spec fn eq_spec(&self, other: &Self) -> bool {
        self@ == other@
    }
}

impl Eq for JavaScriptValue {}

impl From<String> for JavaScriptValue {
    fn from(value: String) -> (result: Self)
        ensures
            result matches JavaScriptValue::Value(text) && text@ == value@,
    {
        JavaScriptValue::Value(value)
    }
}

impl vstd::std_specs::convert::FromSpecImpl<String> for JavaScriptValue {
    open spec fn obeys_from_spec() -> bool {
        true
    }

    open spec fn from_spec(value: String) -> Self {
        JavaScriptValue::Value(value)
    }
}

impl From<Option<String>> for JavaScriptValue {
    fn from(value: Option<String>) -> (result: Self)
        ensures
            value matches Some(v) ==> (result matches JavaScriptValue::Value(text) && text@ == v@),
            value is None ==> result is Empty,
    {
        match value {
            Some(v) => JavaScriptValue::from(v),
            None => JavaScriptValue::Empty,
        }
    }
}

impl vstd::std_specs::convert::FromSpecImpl<Option<String>> for JavaScriptValue {
    open spec fn obeys_from_spec() -> bool {
        true
    }

    open spec fn from_spec(value: Option<String>) -> Self {
        match value {
            Some(v) => JavaScriptValue::Value(v),
            None => JavaScriptValue::Empty,
        }
    }
}


/// The model of a value tells everything about it: two values have the same model
/// exactly when both are errors, both are empty, or both are the same text.
pub proof fn law_value_model_is_faithful(a: JavaScriptValue, b: JavaScriptValue)
    ensures
        a@ == b@ <==> (a is Error && b is Error) || (a is Empty && b is Empty) || (
        a matches JavaScriptValue::Value(x) && b matches JavaScriptValue::Value(y) && x@ == y@),
        a@ is Error <==> a is Error,
        a@ is Empty <==> a is Empty,
        forall|text: Seq<char>|
            a@ == ValueView::Value(text) <==> (a matches JavaScriptValue::Value(x) && x@ == text),
{
}

/// `==` tells values apart exactly as their texts and kinds do.
pub proof fn law_value_equality(a: JavaScriptValue, b: JavaScriptValue)
    ensures
        JavaScriptValue::obeys_eq_spec(),
        a.eq_spec(&b) <==> (a is Error && b is Error) || (a is Empty && b is Empty) || (
        a matches JavaScriptValue::Value(x) && b matches JavaScriptValue::Value(y) && x@ == y@),
        a.eq_spec(&b) == b.eq_spec(&a),
        a.eq_spec(&a),
{
}

/// A text becomes a value of that same text, whatever it holds. An optional text
/// does so too, and only its absence becomes the empty value.
pub proof fn law_text_becomes_value(text: String, optional: Option<String>)
    ensures
        <JavaScriptValue as FromSpec<String>>::obeys_from_spec(),
        <JavaScriptValue as FromSpec<Option<String>>>::obeys_from_spec(),
        <JavaScriptValue as FromSpec<String>>::from_spec(text) matches JavaScriptValue::Value(t)
            && t@ == text@,
        <JavaScriptValue as FromSpec<Option<String>>>::from_spec(Some(text))
            == <JavaScriptValue as FromSpec<String>>::from_spec(text),
        <JavaScriptValue as FromSpec<Option<String>>>::from_spec(optional) is Empty <==> optional is None,
        !(<JavaScriptValue as FromSpec<Option<String>>>::from_spec(optional) is Error),
{
}

/// The models of several values are those of each of them, at the same positions.
pub proof fn law_values_are_modelled_one_by_one(values: Seq<JavaScriptValue>)
    ensures
        values_view(values).len() == values.len(),
        forall|i: int|
            0 <= i < values.len() ==> (match values[i] {
                JavaScriptValue::Error => #[trigger] values_view(values)[i] is Error,
                JavaScriptValue::Empty => values_view(values)[i] is Empty,
                JavaScriptValue::Value(text) => values_view(values)[i] == ValueView::Value(text@),
            }),
{
}

}
