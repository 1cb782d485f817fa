//! The arguments of attributes as lists of keys and values.
use vstd::prelude::*;

use crate::args::{told, EmitError};
use crate::syntax::{
    literal_in, literal_value, metas_in, split_metas, Literal, LiteralValue, MetaForm, MetaShape,
};

verus! {

/// A value in the arguments of an attribute.
#[derive(Clone, Debug, PartialEq, Eq)]
pub enum MetaValue {
    /// A string.
    Str(String),
    /// The decimal digits of an integer.
    Int(String),
    /// Anything else.
    Other,
}

/// An item in the arguments of an attribute.
#[derive(Clone, Debug, PartialEq, Eq)]
pub enum MetaArg {
    /// A path: the identifier where it is no more than that.
    Path(Option<String>),
    /// `key = value`: the key where it is an identifier.
    NameValue(Option<String>, MetaValue),
    /// `key(items)`: the key where it is an identifier, and the source of the items.
    List(Option<String>, String),
}

/// What a [`MetaValue`] stands for.
pub ghost enum Given {
    Str(Seq<char>),
    Int(Seq<char>),
    Other,
}

/// What a [`MetaArg`] stands for.
pub ghost enum Item {
    Path(Option<Seq<char>>),
    NameValue(Option<Seq<char>>, Given),
    List(Option<Seq<char>>, Seq<char>),
}

impl View for MetaValue {
    type V = Given;

    open spec fn view(&self) -> Given {
        match self {
            MetaValue::Str(s) => Given::Str(s@),
            MetaValue::Int(digits) => Given::Int(digits@),
            MetaValue::Other => Given::Other,
        }
    }
}

impl View for MetaArg {
    type V = Item;

    open spec fn view(&self) -> Item {
        match self {
            MetaArg::Path(ident) => Item::Path(ident.deep_view()),
            MetaArg::NameValue(key, value) => Item::NameValue(key.deep_view(), value@),
            MetaArg::List(key, items) => Item::List(key.deep_view(), items@),
        }
    }
}

impl DeepView for MetaArg {
    type V = Item;

    open spec fn deep_view(&self) -> Item {
        self@
    }
}

/// The value that a literal is.
pub open spec fn given_literal(literal: Result<LiteralValue, Seq<char>>) -> Given {
    match literal {
        Ok(LiteralValue::Str(s)) => Given::Str(s),
        Ok(LiteralValue::Int(digits)) => Given::Int(digits),
        _ => Given::Other,
    }
}

/// The value that the source of a literal stands for.
pub open spec fn given(literal: Option<Seq<char>>) -> Given {
    match literal {
        Some(source) => given_literal(literal_in(source)),
        None => Given::Other,
    }
}

/// The item that a form stands for.
pub open spec fn item_of(form: MetaForm) -> Item {
    match form {
        MetaForm::Path(ident) => Item::Path(ident),
        MetaForm::NameValue(key, literal) => Item::NameValue(key, given(literal)),
        MetaForm::List(key, items) => Item::List(key, items),
    }
}

/// The items in the arguments of an attribute, or what is wrong with them. Where nothing is
/// written there are none.
pub open spec fn items_in(source: Seq<char>) -> Result<Seq<Item>, Seq<char>> {
    if source.len() == 0 {
        Ok(Seq::empty())
    } else {
        match metas_in(source) {
            Ok(forms) => Ok(Seq::new(forms.len(), |i: int| item_of(forms[i]))),
            Err(message) => Err(message),
        }
    }
}

/// The value that a literal is.
pub fn literal_meta(literal: Result<Literal, String>) -> (res: MetaValue)
    ensures
        res@ == given_literal(crate::syntax::outcome(literal)),
{
    match literal {
        Ok(Literal::Str(s)) => MetaValue::Str(s),
        Ok(Literal::Int(digits)) => MetaValue::Int(digits),
        _ => MetaValue::Other,
    }
}

/// Reads a value.
fn read_value(literal: &Option<String>) -> (res: MetaValue)
    ensures
        res@ == given(literal.deep_view()),
{
    match literal {
        Some(source) => literal_meta(literal_value(source.as_str())),
        None => MetaValue::Other,
    }
}

/// Reads an item.
fn read_meta(shape: &MetaShape) -> (res: MetaArg)
    ensures
        res@ == item_of(shape@),
{
    match shape {
        MetaShape::Path(ident) => MetaArg::Path(ident.clone()),
        MetaShape::NameValue(key, literal) => MetaArg::NameValue(key.clone(), read_value(literal)),
        MetaShape::List(key, items) => MetaArg::List(key.clone(), items.clone()),
    }
}

/// A result that is a list of items, as the contracts speak of it.
pub open spec fn items_outcome(res: Result<Vec<MetaArg>, String>) -> Result<Seq<Item>, Seq<char>> {
    match res {
        Ok(list) => Ok(list.deep_view()),
        Err(message) => Err(message@),
    }
}

/// Reads the items in the arguments of an attribute.
pub fn parse_metas(source: &str) -> (res: Result<Vec<MetaArg>, String>)
    ensures
        items_outcome(res) == items_in(source@),
{
    if source.unicode_len() == 0 {
        let none: Vec<MetaArg> = Vec::new();
        assert(none.deep_view() =~= Seq::<Item>::empty());
        return Ok(none);
    }
    match split_metas(source) {
        Ok(shapes) => {
            let mut out: Vec<MetaArg> = Vec::new();
            let mut i: usize = 0;
            while i < shapes.len()
                invariant
                    i <= shapes.len(),
                    out@.len() == i,
                    forall|k: int| 0 <= k < i ==> (#[trigger] out@[k])@ == item_of(shapes@[k]@),
                decreases shapes.len() - i,
            {
                out.push(read_meta(&shapes[i]));
                i += 1;
            }
            assert(out.deep_view() =~= items_in(source@)->Ok_0);
            Ok(out)
        },
        Err(message) => Err(message),
    }
}

/// The items of an attribute are read in their order, each as it is written: a name, a name with a
/// value, or a name with a list.
pub proof fn items_are_read_in_order(source: Seq<char>, forms: Seq<MetaForm>, i: int)
    requires
        source.len() > 0,
        metas_in(source) == Ok::<Seq<MetaForm>, Seq<char>>(forms),
        0 <= i < forms.len(),
    ensures
        items_in(source) is Ok,
        items_in(source)->Ok_0.len() == forms.len(),
        forms[i] matches MetaForm::Path(ident) ==> items_in(source)->Ok_0[i] == Item::Path(ident),
        forms[i] matches MetaForm::NameValue(key, literal) ==> items_in(source)->Ok_0[i]
            == Item::NameValue(key, given(literal)),
        forms[i] matches MetaForm::List(key, inner) ==> items_in(source)->Ok_0[i] == Item::List(
            key,
            inner,
        ),
        items_in(Seq::empty()) == Ok::<Seq<Item>, Seq<char>>(Seq::empty()),
{
}

/// The key, or nothing where it is no identifier.
pub open spec fn key_text(key: Option<Seq<char>>) -> Seq<char> {
    match key {
        Some(ident) => ident,
        None => ""@,
    }
}

/// The key, or nothing where it is no identifier.
pub fn key_or_empty(key: &Option<String>) -> (res: String)
    ensures
        res@ == key_text(key.deep_view()),
{
    match key {
        Some(ident) => ident.clone(),
        None => "".to_string(),
    }
}

/// What the items of an attribute set, one after the other.
pub trait MetaSettings: View + Sized {
    /// The settings after one more item, or the message for an item that cannot be.
    spec fn after(settings: Self::V, item: Item) -> Result<Self::V, Seq<char>>;

    /// Takes in one more item.
    fn apply(self, meta: &MetaArg) -> (res: Result<Self, EmitError>)
        ensures
            told(res) == Self::after(self@, meta@),
    ;
}

/// The settings after all of `items`. The first item that cannot be decides.
pub open spec fn settled_metas<S: MetaSettings>(start: S::V, items: Seq<Item>) -> Result<
    S::V,
    Seq<char>,
>
    decreases items.len(),
{
    if items.len() == 0 {
        Ok(start)
    } else {
        match settled_metas::<S>(start, items.drop_last()) {
            Ok(settings) => S::after(settings, items.last()),
            Err(message) => Err(message),
        }
    }
}

/// An item that cannot be decides, whatever follows.
proof fn settled_metas_stops<S: MetaSettings>(start: S::V, items: Seq<Item>, n: int)
    requires
        0 <= n <= items.len(),
        settled_metas::<S>(start, items.take(n)) is Err,
    ensures
        settled_metas::<S>(start, items) == settled_metas::<S>(start, items.take(n)),
    decreases items.len(),
{
    if n == items.len() {
        assert(items.take(n) =~= items);
    } else {
        assert(items.drop_last().take(n) =~= items.take(n));
        settled_metas_stops::<S>(start, items.drop_last(), n);
    }
}

/// Items are taken in in their order, and the first one that cannot be decides.
pub proof fn items_are_taken_in_order<S: MetaSettings>(start: S::V, a: Seq<Item>, b: Seq<Item>, e: Item)
    ensures
        settled_metas::<S>(start, a + b) == match settled_metas::<S>(start, a) {
            Ok(settings) => settled_metas::<S>(settings, b),
            Err(message) => Err(message),
        },
        settled_metas::<S>(start, seq![e]) == S::after(start, e),
        settled_metas::<S>(start, Seq::empty()) == Ok::<S::V, Seq<char>>(start),
    decreases b.len(),
{
    reveal_with_fuel(settled_metas, 2);
    assert(seq![e].drop_last() =~= Seq::<Item>::empty());
    if b.len() == 0 {
        assert(a + b =~= a);
    } else {
        items_are_taken_in_order::<S>(start, a, b.drop_last(), e);
        assert((a + b).drop_last() =~= a + b.drop_last());
        assert((a + b).last() == b.last());
    }
}

/// Takes in all of `metas`.
pub fn settle_metas<S: MetaSettings>(start: S, metas: &[MetaArg]) -> (res: Result<S, EmitError>)
    ensures
        told(res) == settled_metas::<S>(start@, metas.deep_view()),
{
    let ghost all = metas.deep_view();
    let ghost first = start@;
    let mut settings = start;
    let mut i: usize = 0;
    assert(all.take(0) =~= Seq::<Item>::empty());
    while i < metas.len()
        invariant
            all == metas.deep_view(),
            first == start@,
            i <= metas@.len(),
            settled_metas::<S>(first, all.take(i as int)) == Ok::<S::V, Seq<char>>(settings@),
        decreases metas@.len() - i,
    {
        proof {
            let next = all.take(i + 1);
            assert(next.drop_last() =~= all.take(i as int));
            assert(next.last() == metas@[i as int]@);
        }
        match settings.apply(&metas[i]) {
            Ok(after) => {
                settings = after;
            },
            Err(e) => {
                proof {
                    settled_metas_stops::<S>(first, all, i + 1);
                }
                return Err(e);
            },
        }
        i += 1;
    }
    assert(all.take(i as int) =~= all);
    Ok(settings)
}

} // verus!
